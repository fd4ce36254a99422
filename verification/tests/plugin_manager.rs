use sootmix::plugin_manager::{PluginFilterManager, PluginProcessorManager};

#[test]
fn processor_is_active_only_with_plugins() {
    let mut m = PluginProcessorManager::new();
    assert!(!m.is_active(1));
    assert!(m.setup_channel(1, vec![10, 11]).is_ok());
    assert!(m.is_active(1));
    assert_eq!(m.get(1).unwrap().plugin_instances, vec![10, 11]);
    assert!(m.setup_channel(1, Vec::new()).is_ok());
    assert!(!m.is_active(1));
    assert!(m.get(1).is_some());
    m.remove_channel(1);
    assert!(m.get(1).is_none());
    assert!(!m.is_active(1));
}

#[test]
fn processor_setup_keeps_existing_nodes() {
    let mut m = PluginProcessorManager::new();
    m.setup_channel(3, vec![1]).unwrap();
    m.processors.get_mut(&3).unwrap().input_node_id = Some(40);
    m.setup_channel(3, vec![2]).unwrap();
    let p = m.get(3).unwrap();
    assert_eq!(p.input_node_id, Some(40));
    assert_eq!(p.channel_id, 3);
    assert_eq!(p.plugin_instances, vec![2]);
}

#[test]
fn filter_creation_is_idempotent() {
    let mut m = PluginFilterManager::new();
    assert!(!m.has_filter(5));
    {
        let f = m.create_filter(5, "Music", 2).unwrap();
        assert_eq!(f.channel_name, "Music");
        assert_eq!(f.channel_id, 5);
        assert!(!f.active);
    }
    let again = m.create_filter(5, "Other", 1).unwrap();
    assert_eq!(again.channel_name, "Music");
    assert!(m.has_filter(5));
    assert!(m.update_plugin_chain(5, vec![1, 2]));
    assert!(!m.update_plugin_chain(6, vec![1]));
}

#[test]
fn filter_destroy_reports_whether_there_was_one() {
    let mut m = PluginFilterManager::new();
    m.create_filter(1, "A", 1).unwrap();
    m.create_filter(2, "B", 1).unwrap();
    let mut ids = m.filter_channels();
    ids.sort();
    assert_eq!(ids, vec![1, 2]);
    assert!(m.destroy_filter(1));
    assert!(!m.destroy_filter(1));
    assert!(m.get(1).is_none());
    assert_eq!(m.get(2).unwrap().channel_name, "B");
    assert_eq!(m.filter_channels(), vec![2]);
}

fn new_id() -> u128 {
    uuid::Uuid::new_v4().as_u128()
}

#[test]
fn test_filter_stream_creation() {
    let channel_id = new_id();
    let filter = sootmix::plugin_manager::PluginFilterStream::new(channel_id, "Test".to_string());
    assert_eq!(filter.channel_id, channel_id);
    assert!(!filter.active);
}

#[test]
fn test_filter_manager() {
    let mut manager = PluginFilterManager::new();
    let channel_id = new_id();

    manager.create_filter(channel_id, "Test", 0).expect("Failed to create filter");
    assert!(manager.has_filter(channel_id));

    assert!(manager.destroy_filter(channel_id));
    assert!(!manager.has_filter(channel_id));
}

#[test]
fn test_processor_manager_new() {
    let manager = PluginProcessorManager::new();
    assert!(manager.processors.is_empty());
}

#[test]
fn test_setup_channel_empty() {
    let mut manager = PluginProcessorManager::new();
    let channel_id = new_id();

    manager.setup_channel(channel_id, vec![]).unwrap();

    assert!(!manager.is_active(channel_id));
}

#[test]
fn test_setup_channel_with_plugins() {
    let mut manager = PluginProcessorManager::new();
    let channel_id = new_id();
    let plugin_id = new_id();

    manager.setup_channel(channel_id, vec![plugin_id]).unwrap();

    assert!(manager.is_active(channel_id));
    assert_eq!(manager.get(channel_id).unwrap().plugin_instances, vec![plugin_id]);
}

#[test]
fn test_remove_channel() {
    let mut manager = PluginProcessorManager::new();
    let channel_id = new_id();

    manager.setup_channel(channel_id, vec![new_id()]).unwrap();
    assert!(manager.get(channel_id).is_some());

    manager.remove_channel(channel_id);
    assert!(manager.get(channel_id).is_none());
}
