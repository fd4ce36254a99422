use sootmix::mixer::{step, ChannelInfo, ChannelModel, DaemonAppInfo, MixerAction, MixerEvent, MixerModel, SavedChannel};
use sootmix::plugin_chain::PluginSlot;
use sootmix::routing_rules::{MatchTarget, MatchType, RoutingRule, RoutingRulesConfig};

const GAME_ID: &str = "67e55044-10b1-426f-9247-bb680e5fe0c8";
const CHAT_ID: &str = "a1a2a3a4-b1b2-c1c2-d1d2-d3d4d5d6d7d8";

fn uuid_value(text: &str) -> u128 {
    uuid::Uuid::parse_str(text).unwrap().as_u128()
}

fn empty_model() -> MixerModel {
    MixerModel {
        channels: Vec::new(),
        apps: Vec::new(),
        routing_rules: RoutingRulesConfig::new(),
        editing_rule: None,
        routing_rules_panel_open: false,
        daemon_connected: false,
        pw_connected: false,
        editing_channel: None,
        dragging_app: None,
        last_error: None,
        selected_channel: None,
        plugin_browser_channel: None,
        eq_panel_channel: None,
        settings_open: false,
        left_sidebar_collapsed: false,
        bottom_panel_expanded: false,
        master_muted: false,
        output_device: None,
        startup_complete: false,
    }
}

fn channel(id: u128, name: &str, apps: &[&str]) -> ChannelModel {
    ChannelModel {
        id,
        name: name.to_string(),
        assigned_apps: apps.iter().map(|a| a.to_string()).collect(),
        sink_id: None,
        is_input: false,
        muted: false,
        eq_enabled: false,
        eq_preset: "Flat".to_string(),
        output_device_name: None,
        input_device_name: None,
    }
}

fn info(id_text: &str, name: &str) -> ChannelInfo {
    ChannelInfo {
        id_text: id_text.to_string(),
        name: name.to_string(),
        assigned_apps: Vec::new(),
        is_input: false,
        muted: false,
        eq_enabled: false,
        eq_preset: "Flat".to_string(),
        output_device: String::new(),
    }
}

#[test]
fn editing_a_new_rule_and_saving_adds_it() {
    let mut m = empty_model();
    step(&mut m, MixerEvent::OpenRoutingRulesPanel);
    assert!(m.routing_rules_panel_open);
    step(&mut m, MixerEvent::StartEditingRule(None));
    let ed = m.editing_rule.clone().unwrap();
    assert_eq!(ed.id, None);
    assert_eq!(ed.match_type_name, "contains");
    assert_eq!(ed.priority, 100);
    assert!(ed.enabled);
    step(&mut m, MixerEvent::RuleNameChanged("Games".to_string()));
    step(&mut m, MixerEvent::RulePatternChanged("steam*".to_string()));
    step(&mut m, MixerEvent::RuleMatchTypeChanged("glob".to_string()));
    step(&mut m, MixerEvent::RuleTargetChannelChanged("Game".to_string()));
    step(&mut m, MixerEvent::RulePriorityChanged("20".to_string()));
    step(&mut m, MixerEvent::RulePriorityChanged("not a number".to_string()));
    let actions = step(&mut m, MixerEvent::SaveRoutingRule);
    assert_eq!(actions, vec![MixerAction::SaveRoutingRules]);
    assert!(m.editing_rule.is_none());
    assert_eq!(m.routing_rules.rules.len(), 1);
    let r = &m.routing_rules.rules[0];
    assert_eq!(r.name, "Games");
    assert_eq!(r.match_type, MatchType::Glob("steam*".to_string()));
    assert_eq!(r.target_channel, "Game");
    assert_eq!(r.priority, 20);
}

#[test]
fn editing_an_existing_rule_updates_it_in_place_and_resorts() {
    let mut m = empty_model();
    let a = RoutingRule::new("A", "firefox", "Web");
    let mut b = RoutingRule::new("B", "discord", "Chat");
    b.priority = 50;
    let a_id = a.id;
    m.routing_rules.rules = vec![b, a];
    step(&mut m, MixerEvent::StartEditingRule(Some(a_id)));
    let ed = m.editing_rule.clone().unwrap();
    assert_eq!(ed.id, Some(a_id));
    assert_eq!(ed.pattern, "firefox");
    assert_eq!(ed.match_type_name, "contains");
    step(&mut m, MixerEvent::RulePriorityChanged("10".to_string()));
    step(&mut m, MixerEvent::RuleMatchTypeChanged("exact".to_string()));
    let actions = step(&mut m, MixerEvent::SaveRoutingRule);
    assert_eq!(actions, vec![MixerAction::SaveRoutingRules]);
    assert_eq!(m.routing_rules.rules.len(), 2);
    assert_eq!(m.routing_rules.rules[0].id, a_id);
    assert_eq!(m.routing_rules.rules[0].priority, 10);
    assert_eq!(m.routing_rules.rules[0].match_type, MatchType::Exact("firefox".to_string()));
    assert_eq!(m.routing_rules.rules[1].name, "B");
}

#[test]
fn cancelling_or_closing_drops_the_edit() {
    let mut m = empty_model();
    step(&mut m, MixerEvent::OpenRoutingRulesPanel);
    step(&mut m, MixerEvent::StartEditingRule(None));
    step(&mut m, MixerEvent::CancelEditingRule);
    assert!(m.editing_rule.is_none());
    step(&mut m, MixerEvent::StartEditingRule(None));
    step(&mut m, MixerEvent::CloseRoutingRulesPanel);
    assert!(m.editing_rule.is_none());
    assert!(!m.routing_rules_panel_open);
    let actions = step(&mut m, MixerEvent::SaveRoutingRule);
    assert!(actions.is_empty());
    assert!(m.routing_rules.rules.is_empty());
}

#[test]
fn quick_rule_prefers_the_binary() {
    let mut m = empty_model();
    let actions = step(
        &mut m,
        MixerEvent::CreateQuickRule("Firefox".to_string(), Some("firefox-bin".to_string()), "Web".to_string()),
    );
    assert_eq!(actions, vec![MixerAction::SaveRoutingRules]);
    let r = &m.routing_rules.rules[0];
    assert_eq!(r.name, "Auto: Firefox");
    assert_eq!(r.match_type, MatchType::Contains("firefox-bin".to_string()));
    assert_eq!(r.match_target, MatchTarget::Either);
    assert_eq!(r.target_channel, "Web");
    step(&mut m, MixerEvent::CreateQuickRule("Spotify".to_string(), None, "Music".to_string()));
    assert_eq!(m.routing_rules.rules[1].match_type, MatchType::Contains("Spotify".to_string()));
}

#[test]
fn rule_list_events_toggle_move_and_delete() {
    let mut m = empty_model();
    let a = RoutingRule::new("A", "a", "X");
    let b = RoutingRule::new("B", "b", "Y");
    let (a_id, b_id) = (a.id, b.id);
    m.routing_rules.rules = vec![a, b];
    let actions = step(&mut m, MixerEvent::ToggleRoutingRule(a_id));
    assert_eq!(actions, vec![MixerAction::SaveRoutingRules]);
    assert!(!m.routing_rules.rules[0].enabled);
    step(&mut m, MixerEvent::MoveRoutingRuleUp(b_id));
    assert_eq!(m.routing_rules.rules[0].id, b_id);
    step(&mut m, MixerEvent::MoveRoutingRuleDown(b_id));
    assert_eq!(m.routing_rules.rules[1].id, b_id);
    step(&mut m, MixerEvent::DeleteRoutingRule(a_id));
    assert_eq!(m.routing_rules.rules.len(), 1);
    assert_eq!(m.routing_rules.rules[0].id, b_id);
}

#[test]
fn app_assignment_never_lists_an_app_twice() {
    let mut m = empty_model();
    m.channels.push(channel(7, "Game", &["steam"]));
    step(&mut m, MixerEvent::AppAssigned(7, "steam".to_string()));
    assert_eq!(m.channels[0].assigned_apps, vec!["steam".to_string()]);
    step(&mut m, MixerEvent::AppAssigned(7, "wine".to_string()));
    assert_eq!(m.channels[0].assigned_apps, vec!["steam".to_string(), "wine".to_string()]);
    step(&mut m, MixerEvent::AppAssigned(8, "obs".to_string()));
    assert_eq!(m.channels[0].assigned_apps.len(), 2);
}

#[test]
fn daemon_connection_switches_the_local_pipewire_thread() {
    let mut m = empty_model();
    let actions = step(&mut m, MixerEvent::DaemonConnected);
    assert_eq!(actions, vec![MixerAction::ShutdownLocalPipeWire]);
    assert!(m.daemon_connected && m.pw_connected);
    let actions = step(&mut m, MixerEvent::DaemonDisconnected);
    assert_eq!(actions, vec![MixerAction::ResetMeters, MixerAction::StartLocalPipeWire]);
    assert!(!m.daemon_connected && !m.pw_connected);
    step(&mut m, MixerEvent::PipeWireConnectionChanged(true));
    assert!(m.pw_connected);
}

#[test]
fn daemon_initial_state_skips_channels_with_bad_ids() {
    let mut m = empty_model();
    let apps = vec![
        DaemonAppInfo { node_id: 42, name: "Firefox".to_string(), binary: String::new() },
        DaemonAppInfo { node_id: 43, name: "Steam".to_string(), binary: "steam".to_string() },
    ];
    step(&mut m, MixerEvent::DaemonInitialState(true, true, vec![info(GAME_ID, "Game"), info("nonsense", "Bad")], apps));
    assert!(m.pw_connected);
    assert!(m.master_muted);
    assert!(m.startup_complete);
    assert_eq!(m.apps[0].binary, None);
    assert_eq!(m.apps[1].binary, Some("steam".to_string()));
    assert_eq!(m.channels.len(), 1);
    assert_eq!(m.channels[0].id, uuid_value(GAME_ID));
    assert_eq!(m.channels[0].name, "Game");
    assert_eq!(m.apps.len(), 2);
    step(&mut m, MixerEvent::DaemonMasterMuteChanged(false));
    assert!(!m.master_muted);
}

#[test]
fn daemon_channel_sync_adds_updates_and_removes() {
    let mut m = empty_model();
    step(&mut m, MixerEvent::DaemonChannelAdded(info(GAME_ID, "Game")));
    step(&mut m, MixerEvent::DaemonChannelAdded(info(GAME_ID, "Game again")));
    step(&mut m, MixerEvent::DaemonChannelAdded(info("bad id", "Bad")));
    assert_eq!(m.channels.len(), 1);
    assert_eq!(m.channels[0].name, "Game");
    step(&mut m, MixerEvent::DaemonChannelAdded(info(CHAT_ID, "Chat")));
    let mut updated = info(CHAT_ID, "Voice");
    updated.assigned_apps = vec!["discord".to_string()];
    step(&mut m, MixerEvent::DaemonChannelUpdated(updated));
    assert_eq!(m.channels[1].name, "Voice");
    assert_eq!(m.channels[1].assigned_apps, vec!["discord".to_string()]);
    step(&mut m, MixerEvent::DaemonChannelRemoved(GAME_ID.to_string()));
    assert_eq!(m.channels.len(), 1);
    assert_eq!(m.channels[0].id, uuid_value(CHAT_ID));
    step(&mut m, MixerEvent::DaemonChannelRemoved("not an id".to_string()));
    assert_eq!(m.channels.len(), 1);
}

#[test]
fn daemon_app_sync_adds_once_and_removes_by_node_text() {
    let mut m = empty_model();
    step(&mut m, MixerEvent::DaemonAppDiscovered(DaemonAppInfo { node_id: 42, name: "Firefox".to_string(), binary: "firefox".to_string() }));
    step(&mut m, MixerEvent::DaemonAppDiscovered(DaemonAppInfo { node_id: 42, name: "Firefox".to_string(), binary: "firefox".to_string() }));
    assert_eq!(m.apps.len(), 1);
    assert_eq!(m.apps[0].binary, Some("firefox".to_string()));
    step(&mut m, MixerEvent::DaemonAppDiscovered(DaemonAppInfo { node_id: 43, name: "Game".to_string(), binary: String::new() }));
    assert_eq!(m.apps[1].binary, None);
    step(&mut m, MixerEvent::DaemonAppRemoved("x42".to_string()));
    assert_eq!(m.apps.len(), 2);
    step(&mut m, MixerEvent::DaemonAppRemoved("42".to_string()));
    assert_eq!(m.apps.len(), 1);
    assert_eq!(m.apps[0].node_id, 43);
}

#[test]
fn daemon_mute_changes_reach_the_channel() {
    let mut m = empty_model();
    step(&mut m, MixerEvent::DaemonChannelAdded(info(GAME_ID, "Game")));
    step(&mut m, MixerEvent::DaemonMuteChanged(GAME_ID.to_string(), true));
    assert!(m.channels[0].muted);
    step(&mut m, MixerEvent::DaemonMuteChanged("bad".to_string(), false));
    assert!(m.channels[0].muted);
    step(&mut m, MixerEvent::DaemonMuteChanged(GAME_ID.to_string(), false));
    assert!(!m.channels[0].muted);
}

fn saved(id: u128, name: &str, managed: bool, input: bool, muted: bool) -> SavedChannel {
    SavedChannel {
        id,
        name: name.to_string(),
        assigned_apps: Vec::new(),
        is_managed: managed,
        is_input: input,
        muted,
        eq_enabled: false,
        eq_preset: "Flat".to_string(),
        output_device_name: None,
        input_device_name: None,
        plugin_chain: Vec::new(),
    }
}

#[test]
fn restoring_recreates_managed_channels_only() {
    let mut m = empty_model();
    let mut game = saved(1, "Game", true, false, false);
    game.assigned_apps = vec!["steam".to_string()];
    game.eq_enabled = true;
    game.eq_preset = "Bass".to_string();
    game.output_device_name = Some("USB Headset".to_string());
    let slot = PluginSlot { plugin_id: "comp".to_string(), bypassed: true };
    game.plugin_chain = vec![slot.clone()];
    let mut mic = saved(3, "Mic", true, true, true);
    mic.input_device_name = Some("USB Mic".to_string());
    let list = vec![game, saved(2, "Speakers", false, false, true), mic];
    let actions = step(&mut m, MixerEvent::RestoreChannels(true, Some("Speakers".to_string()), list));
    assert_eq!(
        actions,
        vec![
            MixerAction::ApplyMasterOutput(Some("Speakers".to_string()), true),
            MixerAction::CreateVirtualSink(1, "Game".to_string()),
            MixerAction::CreateVirtualSource(3, "Mic".to_string()),
            MixerAction::LoadPlugins(1, vec![slot]),
        ]
    );
    assert!(m.startup_complete);
    assert!(m.master_muted);
    assert_eq!(m.output_device, Some("Speakers".to_string()));
    assert_eq!(m.channels.len(), 2);
    assert_eq!(m.channels[0].assigned_apps, vec!["steam".to_string()]);
    assert!(m.channels[0].eq_enabled);
    assert_eq!(m.channels[0].eq_preset, "Bass");
    assert_eq!(m.channels[0].output_device_name, Some("USB Headset".to_string()));
    assert_eq!(m.channels[1].id, 3);
    assert!(m.channels[1].is_input);
    assert!(m.channels[1].muted);
    assert_eq!(m.channels[1].input_device_name, Some("USB Mic".to_string()));
    assert!(m.channels.iter().all(|c| c.sink_id.is_none()));
}

#[test]
fn mute_toggles_reach_the_channel_and_the_master() {
    let mut m = empty_model();
    m.channels.push(channel(1, "Game", &[]));
    assert_eq!(step(&mut m, MixerEvent::ChannelMuteToggled(1)), vec![MixerAction::SetChannelMute(1, true)]);
    assert!(m.channels[0].muted);
    assert_eq!(step(&mut m, MixerEvent::ChannelMuteToggled(1)), vec![MixerAction::SetChannelMute(1, false)]);
    assert!(step(&mut m, MixerEvent::ChannelMuteToggled(9)).is_empty());
    m.daemon_connected = true;
    assert_eq!(step(&mut m, MixerEvent::ChannelMuteToggled(9)), vec![MixerAction::SetChannelMute(9, false)]);
    assert_eq!(
        step(&mut m, MixerEvent::MasterMuteToggled),
        vec![MixerAction::SetMasterMute(true), MixerAction::SaveConfig]
    );
    assert!(m.master_muted);
    assert_eq!(
        step(&mut m, MixerEvent::TrayToggleMuteAll),
        vec![MixerAction::SetMasterMute(false), MixerAction::SetTrayMuted(false)]
    );
    assert!(!m.master_muted);
}

#[test]
fn output_device_choices_are_kept_and_applied() {
    let mut m = empty_model();
    m.channels.push(channel(1, "Game", &[]));
    assert_eq!(
        step(&mut m, MixerEvent::OutputDeviceChanged("Speakers".to_string())),
        vec![MixerAction::SetMasterOutput("Speakers".to_string()), MixerAction::SaveConfig]
    );
    assert_eq!(m.output_device, Some("Speakers".to_string()));
    let d = Some("USB Headset".to_string());
    assert_eq!(
        step(&mut m, MixerEvent::ChannelOutputDeviceChanged(1, d.clone())),
        vec![MixerAction::SetChannelOutput(1, d.clone()), MixerAction::SaveConfig]
    );
    assert_eq!(m.channels[0].output_device_name, d);
    m.daemon_connected = true;
    step(&mut m, MixerEvent::ChannelOutputDeviceChanged(1, None));
    assert_eq!(m.channels[0].output_device_name, d);
}

#[test]
fn eq_toggle_starts_and_stops_the_filter() {
    let mut m = empty_model();
    m.channels.push(channel(1, "Game", &[]));
    assert_eq!(step(&mut m, MixerEvent::ChannelEqToggled(1)), vec![MixerAction::EnableEq(1, "Game".to_string())]);
    assert!(!m.channels[0].eq_enabled);
    step(&mut m, MixerEvent::EqEnabled(1));
    assert!(m.channels[0].eq_enabled);
    assert_eq!(step(&mut m, MixerEvent::ChannelEqToggled(1)), vec![MixerAction::DisableEq(1, "Game".to_string())]);
    assert!(!m.channels[0].eq_enabled);
    assert!(step(&mut m, MixerEvent::ChannelEqToggled(5)).is_empty());
}

#[test]
fn daemon_channels_carry_their_devices_and_eq() {
    let mut m = empty_model();
    let mut out = info(GAME_ID, "Game");
    out.output_device = "USB Headset".to_string();
    out.eq_enabled = true;
    out.eq_preset = "Bass".to_string();
    let mut mic = info(CHAT_ID, "Mic");
    mic.is_input = true;
    mic.output_device = "USB Mic".to_string();
    step(&mut m, MixerEvent::DaemonChannelAdded(out));
    step(&mut m, MixerEvent::DaemonChannelAdded(mic));
    assert_eq!(m.channels[0].output_device_name, Some("USB Headset".to_string()));
    assert_eq!(m.channels[0].input_device_name, None);
    assert!(m.channels[0].eq_enabled);
    assert_eq!(m.channels[0].eq_preset, "Bass");
    assert_eq!(m.channels[1].output_device_name, None);
    assert_eq!(m.channels[1].input_device_name, Some("USB Mic".to_string()));
    // An update without a device keeps the device.
    let update = info(GAME_ID, "Game 2");
    step(&mut m, MixerEvent::DaemonChannelUpdated(update));
    assert_eq!(m.channels[0].name, "Game 2");
    assert_eq!(m.channels[0].output_device_name, Some("USB Headset".to_string()));
    assert!(!m.channels[0].eq_enabled);
}

#[test]
fn renaming_trims_the_name_and_ignores_blank_names() {
    let mut m = empty_model();
    m.channels.push(channel(7, "Game", &[]));
    step(&mut m, MixerEvent::StartEditingChannelName(7));
    assert_eq!(m.editing_channel, Some((7, "Game".to_string())));
    step(&mut m, MixerEvent::ChannelNameEditChanged("Games".to_string()));
    assert_eq!(m.editing_channel, Some((7, "Games".to_string())));
    let actions = step(&mut m, MixerEvent::ChannelRenamed(7, "   ".to_string()));
    assert!(actions.is_empty());
    assert!(m.editing_channel.is_none());
    assert_eq!(m.channels[0].name, "Game");
    let actions = step(&mut m, MixerEvent::ChannelRenamed(7, "  Games \n".to_string()));
    assert_eq!(actions, vec![MixerAction::RenameChannel(7, "Games".to_string()), MixerAction::SaveConfig]);
    assert_eq!(m.channels[0].name, "Games");
    step(&mut m, MixerEvent::StartEditingChannelName(8));
    assert!(m.editing_channel.is_none());
    step(&mut m, MixerEvent::StartEditingChannelName(7));
    step(&mut m, MixerEvent::CancelEditingChannelName);
    assert!(m.editing_channel.is_none());
}

#[test]
fn new_channels_are_numbered_by_kind() {
    let mut m = empty_model();
    m.channels.push(channel(1, "Game", &[]));
    let mut mic = channel(2, "Mic 1", &[]);
    mic.is_input = true;
    m.channels.push(mic);
    let actions = step(&mut m, MixerEvent::NewChannelRequested);
    assert_eq!(m.channels.len(), 3);
    let c = &m.channels[2];
    assert_eq!(c.name, "Channel 3");
    assert!(!c.is_input);
    assert!(c.assigned_apps.is_empty());
    assert_eq!(actions, vec![MixerAction::CreateVirtualSink(c.id, "Channel 3".to_string()), MixerAction::SaveConfig]);
    let actions = step(&mut m, MixerEvent::NewInputChannelRequested);
    let c = &m.channels[3];
    assert_eq!(c.name, "Mic 2");
    assert!(c.is_input);
    assert_eq!(actions, vec![MixerAction::CreateVirtualSource(c.id, "Mic 2".to_string()), MixerAction::SaveConfig]);
}

#[test]
fn with_the_daemon_new_channels_are_requested() {
    let mut m = empty_model();
    m.daemon_connected = true;
    let actions = step(&mut m, MixerEvent::NewChannelRequested);
    assert_eq!(actions, vec![MixerAction::DaemonCreateChannel("Channel 1".to_string()), MixerAction::SaveConfig]);
    let actions = step(&mut m, MixerEvent::NewInputChannelRequested);
    assert_eq!(actions, vec![MixerAction::DaemonCreateInputChannel("Mic 1".to_string()), MixerAction::SaveConfig]);
    assert!(m.channels.is_empty());
    let actions = step(&mut m, MixerEvent::ChannelDeleted(5));
    assert_eq!(actions, vec![MixerAction::DeleteChannel(5), MixerAction::SaveConfig]);
}

#[test]
fn deleting_a_channel_locally_removes_it() {
    let mut m = empty_model();
    m.channels.push(channel(1, "A", &[]));
    m.channels.push(channel(2, "B", &[]));
    let actions = step(&mut m, MixerEvent::ChannelDeleted(1));
    assert_eq!(actions, vec![MixerAction::DeleteChannel(1), MixerAction::SaveConfig]);
    assert_eq!(m.channels.len(), 1);
    assert_eq!(m.channels[0].id, 2);
}

#[test]
fn dropping_an_app_needs_a_sink_unless_the_daemon_routes() {
    let mut m = empty_model();
    m.channels.push(channel(1, "Game", &[]));
    assert!(step(&mut m, MixerEvent::DropAppOnChannel(1)).is_empty());
    step(&mut m, MixerEvent::StartDraggingApp(42, "steam".to_string()));
    let actions = step(&mut m, MixerEvent::DropAppOnChannel(1));
    assert!(actions.is_empty());
    assert_eq!(m.last_error, Some("Channel has no sink - try again".to_string()));
    assert_eq!(m.dragging_app, Some((42, "steam".to_string())));
    m.channels[0].sink_id = Some(100);
    let actions = step(&mut m, MixerEvent::DropAppOnChannel(1));
    assert_eq!(actions, vec![MixerAction::AssignApp(42, 1)]);
    assert!(m.dragging_app.is_none());
    m.daemon_connected = true;
    step(&mut m, MixerEvent::StartDraggingApp(43, "wine".to_string()));
    let actions = step(&mut m, MixerEvent::DropAppOnChannel(9));
    assert_eq!(actions, vec![MixerAction::AssignApp(43, 9)]);
    step(&mut m, MixerEvent::StartDraggingApp(44, "obs".to_string()));
    step(&mut m, MixerEvent::CancelDrag);
    assert!(m.dragging_app.is_none());
}

#[test]
fn view_events_set_the_panels() {
    let mut m = empty_model();
    step(&mut m, MixerEvent::OpenPluginBrowser(3));
    step(&mut m, MixerEvent::SelectChannel(Some(3)));
    assert_eq!(m.plugin_browser_channel, Some(3));
    step(&mut m, MixerEvent::SelectChannel(Some(4)));
    assert_eq!(m.selected_channel, Some(4));
    assert_eq!(m.plugin_browser_channel, None);
    step(&mut m, MixerEvent::ToggleLeftSidebar);
    step(&mut m, MixerEvent::ToggleBottomPanel);
    assert!(m.left_sidebar_collapsed && m.bottom_panel_expanded);
    step(&mut m, MixerEvent::OpenEqPanel(4));
    assert_eq!(m.eq_panel_channel, Some(4));
    step(&mut m, MixerEvent::CloseEqPanel);
    assert_eq!(m.eq_panel_channel, None);
    step(&mut m, MixerEvent::OpenSettings);
    assert!(m.settings_open);
    step(&mut m, MixerEvent::CloseSettings);
    assert!(!m.settings_open);
    step(&mut m, MixerEvent::OpenPluginBrowser(4));
    step(&mut m, MixerEvent::ClosePluginBrowser);
    assert_eq!(m.plugin_browser_channel, None);
}

#[test]
fn unassigning_an_app_takes_it_off_the_channel() {
    let mut m = empty_model();
    m.channels.push(channel(1, "Game", &["steam", "wine"]));
    let actions = step(&mut m, MixerEvent::AppUnassigned(1, "steam".to_string(), Some(42)));
    assert_eq!(actions, vec![MixerAction::UnassignApp(42, 1)]);
    assert_eq!(m.channels[0].assigned_apps, vec!["wine".to_string()]);
    // An app that is not running is taken off the list only.
    assert!(step(&mut m, MixerEvent::AppUnassigned(1, "wine".to_string(), None)).is_empty());
    assert!(m.channels[0].assigned_apps.is_empty());
    // With the daemon, the daemon updates the list.
    m.channels[0].assigned_apps = vec!["obs".to_string()];
    m.daemon_connected = true;
    let actions = step(&mut m, MixerEvent::AppUnassigned(1, "obs".to_string(), Some(7)));
    assert_eq!(actions, vec![MixerAction::UnassignApp(7, 1)]);
    assert_eq!(m.channels[0].assigned_apps, vec!["obs".to_string()]);
}
