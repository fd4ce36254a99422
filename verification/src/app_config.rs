//! Application configuration (window settings, behaviour, appearance).

use vstd::prelude::*;

verus! {

/// Window position and size settings.
#[derive(Debug, Clone)]
pub struct WindowConfig {
    pub width: u32,
    pub height: u32,
    pub x: Option<i32>,
    pub y: Option<i32>,
}

impl Default for WindowConfig {
    /// 900 by 600, position left to the window manager.
    fn default() -> (r: Self)
        ensures
            r.width == 900,
            r.height == 600,
            r.x is None,
            r.y is None,
    {
        WindowConfig { width: 900, height: 600, x: None, y: None }
    }
}

/// General application settings.
#[derive(Debug, Clone)]
pub struct GeneralConfig {
    /// Start minimized to tray.
    pub start_minimized: bool,
    /// Minimize to tray instead of closing.
    pub minimize_to_tray: bool,
    /// Restore previous session on startup.
    pub restore_on_startup: bool,
    /// Last used preset name.
    pub current_preset: String,
}

impl Default for GeneralConfig {
    /// Not minimized, restoring the session, preset `Default`.
    fn default() -> (r: Self)
        ensures
            !r.start_minimized,
            !r.minimize_to_tray,
            r.restore_on_startup,
            r.current_preset@ == "Default"@,
    {
        GeneralConfig {
            start_minimized: false,
            minimize_to_tray: false,
            restore_on_startup: true,
            current_preset: "Default".to_string(),
        }
    }
}

/// Appearance settings.
#[derive(Debug, Clone)]
pub struct AppearanceConfig {
    /// Theme name (currently only "dark").
    pub theme: String,
}

impl Default for AppearanceConfig {
    /// The `dark` theme.
    fn default() -> (r: Self)
        ensures
            r.theme@ == "dark"@,
    {
        AppearanceConfig { theme: "dark".to_string() }
    }
}

/// Complete application configuration.
#[derive(Debug, Clone)]
pub struct AppConfig {
    pub window: WindowConfig,
    pub general: GeneralConfig,
    pub appearance: AppearanceConfig,
}

impl Default for AppConfig {
    /// Every section at its default.
    fn default() -> (r: Self)
        ensures
            r.window.width == 900 && r.window.height == 600 && r.window.x is None && r.window.y is None,
            !r.general.start_minimized && !r.general.minimize_to_tray && r.general.restore_on_startup,
            r.general.current_preset@ == "Default"@,
            r.appearance.theme@ == "dark"@,
    {
        AppConfig {
            window: WindowConfig::default(),
            general: GeneralConfig::default(),
            appearance: AppearanceConfig::default(),
        }
    }
}

} // verus!
