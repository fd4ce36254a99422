use std::sync::Arc;
use sootmix::app_config::{AppConfig, AppearanceConfig, GeneralConfig, WindowConfig};
use sootmix::meter::{AtomicMeterLevels, ChannelMeterState, MeterManager};
use sootmix::persistence::{builtin_eq_preset_names, builtin_preset_names, find_builtin_preset, merge_preset_names, path_join, preset_file_name, toml_file_stem, ConfigManager};
use sootmix::preset::app_matches_patterns;

#[test]
fn config_defaults() {
    let w = WindowConfig::default();
    assert_eq!((w.width, w.height, w.x, w.y), (900, 600, None, None));
    let g = GeneralConfig::default();
    assert!(!g.start_minimized && !g.minimize_to_tray && g.restore_on_startup);
    assert_eq!(g.current_preset, "Default");
    assert_eq!(AppearanceConfig::default().theme, "dark");
    let a = AppConfig::default();
    assert_eq!(a.window.width, 900);
    assert_eq!(a.appearance.theme, "dark");
}

#[test]
fn paths() {
    assert_eq!(path_join("/home/u/.config/sootmix", "config.toml"), "/home/u/.config/sootmix/config.toml");
    assert_eq!(path_join("/dir/", "x"), "/dir/x");
    assert_eq!(path_join("", "x"), "x");
    assert_eq!(path_join("/dir", "/abs"), "/abs");
    let m = ConfigManager::from_dirs("/c", None);
    assert_eq!(m.config_path(), "/c/config.toml");
    assert_eq!(m.state_file_path(), "/c/state/runtime_nodes.json");
    assert_eq!(m.presets_dir(), "/c/presets");
    assert_eq!(m.eq_presets_dir(), "/c/eq_presets");
    assert_eq!(m.preset_path("Gaming"), "/c/presets/gaming.toml");
    assert_eq!(m.eq_preset_path("Bass Boost"), "/c/eq_presets/bass boost.toml");
    assert_eq!(m.directories(), vec!["/c", "/c/presets", "/c/eq_presets", "/c/state"]);
    let s = ConfigManager::from_dirs("/c", Some("/s"));
    assert_eq!(s.state_file_path(), "/s/runtime_nodes.json");
    assert_eq!(preset_file_name("MyPreset"), "mypreset.toml");
}

#[test]
fn preset_listing() {
    assert_eq!(toml_file_stem("gaming.toml"), Some("gaming".to_string()));
    assert_eq!(toml_file_stem("a.b.toml"), Some("a.b".to_string()));
    assert_eq!(toml_file_stem(".toml"), None);
    assert_eq!(toml_file_stem("notes.txt"), None);
    assert_eq!(toml_file_stem("toml"), None);
    let files = vec!["gaming.toml".to_string(), "mine.toml".to_string(), "readme.md".to_string(), "mine.toml".to_string()];
    let names = merge_preset_names(builtin_preset_names(), &files);
    assert_eq!(names, vec!["Default", "Gaming", "Streaming", "gaming", "mine"]);
    assert_eq!(builtin_eq_preset_names(), vec!["Flat", "Bass Boost", "Vocal Clarity", "Treble Boost", "Cinema"]);
    assert_eq!(find_builtin_preset(&builtin_preset_names(), "gAmInG"), Some(1));
    assert_eq!(find_builtin_preset(&builtin_preset_names(), "other"), None);
}

#[test]
fn channel_preset_patterns() {
    let pats = vec!["steam".to_string(), "Wine".to_string()];
    assert!(app_matches_patterns(&pats, "Steam Client"));
    assert!(app_matches_patterns(&pats, "wine64-preloader"));
    assert!(!app_matches_patterns(&pats, "Firefox"));
    assert!(!app_matches_patterns(&vec![], "anything"));
    let globs = vec!["fire*".to_string(), "[dc]iscord".to_string()];
    assert!(app_matches_patterns(&globs, "firefox"));
    assert!(app_matches_patterns(&globs, "Discord"));
    assert!(!app_matches_patterns(&globs, "chrome"));
    let regexes = vec!["^(chrom(e|ium))$".to_string(), "obs.*studio".to_string(), "([".to_string()];
    assert!(app_matches_patterns(&regexes, "Chromium"));
    assert!(app_matches_patterns(&regexes, "OBS Studio"));
    assert!(!app_matches_patterns(&regexes, "chromebook"));
    assert!(app_matches_patterns(&regexes, "x([y"));
}

#[test]
fn test_atomic_levels() {
    let levels = AtomicMeterLevels::new();
    assert_eq!(levels.load_bits(), (0, 0));
    assert!(!levels.is_active());
    levels.store_bits(0.5f32.to_bits(), 0.75f32.to_bits());
    let (l, r) = levels.load_bits();
    assert_eq!(f32::from_bits(l), 0.5);
    assert_eq!(f32::from_bits(r), 0.75);
    assert!(levels.is_active());
    levels.reset();
    assert!(!levels.is_active());
    assert_eq!(levels.load_bits(), (0, 0));
}

#[test]
fn meter_registration() {
    let mut m = MeterManager::new();
    assert!(!m.has_real_metering(1));
    m.register_real_levels(1, Arc::new(AtomicMeterLevels::new()));
    assert!(m.has_real_metering(1));
    assert!(!m.has_real_metering(2));
    m.unregister_real_levels(1);
    assert!(!m.has_real_metering(1));
    m.unregister_real_levels(2);
    assert!(!m.has_real_metering(2));
    assert!(ChannelMeterState::default().real_levels.is_none());
}

#[test]
fn test_meter_manager_creation() {
    let manager = MeterManager::new();
    assert!(!manager.has_real_metering(0));
}

#[test]
fn test_real_levels_registration() {
    let mut manager = MeterManager::new();
    let channel_id = uuid::Uuid::new_v4().as_u128();
    let levels = Arc::new(AtomicMeterLevels::new());

    assert!(!manager.has_real_metering(channel_id));

    manager.register_real_levels(channel_id, levels);
    assert!(manager.has_real_metering(channel_id));

    manager.unregister_real_levels(channel_id);
    assert!(!manager.has_real_metering(channel_id));
}

#[test]
fn track_channels_keeps_listed_and_drops_others() {
    let mut m = MeterManager::new();
    m.register_real_levels(1, Arc::new(AtomicMeterLevels::new()));
    m.register_real_levels(2, Arc::new(AtomicMeterLevels::new()));
    m.track_channels(&[2, 3, 2]);
    assert!(!m.has_real_metering(1));
    assert!(m.has_real_metering(2));
    assert!(!m.has_real_metering(3));
    m.register_real_levels(1, Arc::new(AtomicMeterLevels::new()));
    m.track_channels(&[]);
    assert!(!m.has_real_metering(1));
    assert!(!m.has_real_metering(2));
}
