use sootmix::plugin_chain::{on_plugin_event, ChannelPlugins, PluginAction, PluginChainModel, PluginEvent, PluginSlot};
use sootmix::plugin_manager::{PluginFilterManager, PluginProcessorManager};

fn model() -> PluginChainModel {
    PluginChainModel {
        channels: vec![ChannelPlugins { channel_id: 1, name: "Music".to_string(), instances: Vec::new(), chain: Vec::new() }],
        processor: PluginProcessorManager::new(),
        filters: PluginFilterManager::new(),
    }
}

fn ids(m: &PluginChainModel) -> Vec<u128> {
    m.channels[0].instances.clone()
}

fn plugin_names(m: &PluginChainModel) -> Vec<String> {
    m.channels[0].chain.iter().map(|s| s.plugin_id.clone()).collect()
}

#[test]
fn first_plugin_creates_the_filter_then_updates_it() {
    let mut m = model();
    let actions = on_plugin_event(&mut m, PluginEvent::PluginLoaded(1, "eq".to_string(), 10));
    assert_eq!(actions, vec![PluginAction::CreatePluginFilter(1, "Music".to_string(), vec![10])]);
    assert!(m.processor.is_active(1));
    assert!(m.filters.has_filter(1));
    let actions = on_plugin_event(&mut m, PluginEvent::PluginLoaded(1, "comp".to_string(), 11));
    assert_eq!(actions, vec![PluginAction::UpdatePluginChain(1, vec![10, 11])]);
    assert_eq!(ids(&m), vec![10, 11]);
    assert_eq!(plugin_names(&m), vec!["eq".to_string(), "comp".to_string()]);
    assert!(!m.channels[0].chain[1].bypassed);
    // A channel that is not there gets nothing.
    assert!(on_plugin_event(&mut m, PluginEvent::PluginLoaded(2, "eq".to_string(), 12)).is_empty());
}

#[test]
fn removing_the_last_plugin_destroys_the_filter() {
    let mut m = model();
    on_plugin_event(&mut m, PluginEvent::PluginLoaded(1, "eq".to_string(), 10));
    on_plugin_event(&mut m, PluginEvent::PluginLoaded(1, "comp".to_string(), 11));
    let actions = on_plugin_event(&mut m, PluginEvent::RemovePlugin(1, 10));
    assert_eq!(actions, vec![PluginAction::UnloadPlugin(10), PluginAction::UpdatePluginChain(1, vec![11])]);
    assert_eq!(plugin_names(&m), vec!["comp".to_string()]);
    assert!(on_plugin_event(&mut m, PluginEvent::RemovePlugin(1, 99)).is_empty());
    let actions = on_plugin_event(&mut m, PluginEvent::RemovePlugin(1, 11));
    assert_eq!(actions, vec![PluginAction::UnloadPlugin(11), PluginAction::DestroyPluginFilter(1)]);
    assert!(!m.filters.has_filter(1));
    assert!(!m.processor.is_active(1));
    assert!(m.channels[0].instances.is_empty());
}

#[test]
fn moving_stops_at_the_ends() {
    let mut m = model();
    for (name, id) in [("a", 1u128), ("b", 2), ("c", 3)] {
        on_plugin_event(&mut m, PluginEvent::PluginLoaded(1, name.to_string(), id));
    }
    assert!(on_plugin_event(&mut m, PluginEvent::MovePlugin(1, 1, -1)).is_empty());
    assert_eq!(ids(&m), vec![1, 2, 3]);
    on_plugin_event(&mut m, PluginEvent::MovePlugin(1, 1, 1));
    assert_eq!(ids(&m), vec![2, 1, 3]);
    assert_eq!(plugin_names(&m), vec!["b".to_string(), "a".to_string(), "c".to_string()]);
    on_plugin_event(&mut m, PluginEvent::MovePlugin(1, 3, 1));
    assert_eq!(ids(&m), vec![2, 1, 3]);
    on_plugin_event(&mut m, PluginEvent::MovePlugin(1, 3, -5));
    assert_eq!(ids(&m), vec![2, 3, 1]);
    // Down then up gives the chain back.
    on_plugin_event(&mut m, PluginEvent::MovePlugin(1, 2, 1));
    on_plugin_event(&mut m, PluginEvent::MovePlugin(1, 2, -1));
    assert_eq!(ids(&m), vec![2, 3, 1]);
}

#[test]
fn bypass_toggles_the_slot_of_the_instance() {
    let mut m = model();
    on_plugin_event(&mut m, PluginEvent::PluginLoaded(1, "eq".to_string(), 10));
    on_plugin_event(&mut m, PluginEvent::PluginLoaded(1, "comp".to_string(), 11));
    on_plugin_event(&mut m, PluginEvent::ToggleBypass(1, 11));
    assert!(!m.channels[0].chain[0].bypassed);
    assert!(m.channels[0].chain[1].bypassed);
    on_plugin_event(&mut m, PluginEvent::ToggleBypass(1, 11));
    assert!(!m.channels[0].chain[1].bypassed);
    on_plugin_event(&mut m, PluginEvent::ToggleBypass(7, 11));
    assert!(!m.channels[0].chain[1].bypassed);
}

#[test]
fn instances_without_a_saved_slot_move_alone() {
    let mut m = model();
    m.channels[0].instances = vec![5, 6];
    m.channels[0].chain = vec![PluginSlot { plugin_id: "x".to_string(), bypassed: false }];
    on_plugin_event(&mut m, PluginEvent::MovePlugin(1, 5, 1));
    assert_eq!(ids(&m), vec![6, 5]);
    assert_eq!(plugin_names(&m), vec!["x".to_string()]);
    on_plugin_event(&mut m, PluginEvent::ToggleBypass(1, 6));
    assert!(m.channels[0].chain[0].bypassed);
}
