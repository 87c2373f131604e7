//! Per-user preferences.
//!
//! User configuration is kept apart from project configuration: preferences of a
//! user do not belong under version control.

use crate::config::byte_size::{self, parse_byte_size};
use crate::paths;
use crate::text::{self, Text};
use vstd::prelude::*;

verus! {

/// Desktop notification configuration.
#[derive(Debug, Clone, Copy, PartialEq, Eq, Structural)]
pub struct NotificationConfig {
    /// Whether notifications are shown at all.
    pub enabled: bool,
    /// Notify when a task or a group fails.
    pub on_failure: bool,
    /// Notify when a task succeeds.
    pub on_success: bool,
    /// Notify when a group is ready.
    pub on_group_complete: bool,
}

impl Default for NotificationConfig {
    fn default() -> (r: Self)
        ensures
            r == (NotificationConfig {
                enabled: false,
                on_failure: true,
                on_success: false,
                on_group_complete: true,
            }),
    {
        NotificationConfig {
            enabled: false,
            on_failure: true,
            on_success: false,
            on_group_complete: true,
        }
    }
}

/// User-level configuration preferences.
#[derive(Debug)]
pub struct UserConfig {
    /// Disable auto-starting a daemon before the TUI opens.
    pub no_autostart: bool,
    /// Disable blinking/animation effects in the TUI.
    pub disable_animations: bool,
    /// Default TUI style preference.
    pub tui_style: Option<TuiStylePreference>,
    /// Log colorization settings.
    pub log_colors: LogColorConfig,
    /// Notification settings.
    pub notifications: NotificationConfig,
    /// Log storage settings.
    pub log_storage: LogStorageConfig,
}

impl Default for UserConfig {
    fn default() -> (r: Self)
        ensures
            r.is_default(),
    {
        UserConfig {
            no_autostart: false,
            disable_animations: false,
            tui_style: None,
            log_colors: Default::default(),
            notifications: Default::default(),
            log_storage: Default::default(),
        }
    }
}

impl UserConfig {
    /// Whether every preference is the default one.
    pub open spec fn is_default(self) -> bool {
        &&& !self.no_autostart
        &&& !self.disable_animations
        &&& self.tui_style is None
        &&& self.log_colors.is_default()
        &&& self.notifications == (NotificationConfig {
            enabled: false,
            on_failure: true,
            on_success: false,
            on_group_complete: true,
        })
        &&& self.log_storage.is_default()
    }
}

/// Log storage backend selector.
#[derive(Debug, Clone, Copy, PartialEq, Eq, Structural)]
pub enum LogStorageBackend {
    /// In-memory ring buffer only. Logs are lost on daemon exit.
    Memory,
    /// Persistent SQLite-backed storage plus an in-memory hot buffer.
    Sqlite,
}

impl Default for LogStorageBackend {
    fn default() -> (r: Self)
        ensures
            r == LogStorageBackend::Memory,
    {
        LogStorageBackend::Memory
    }
}

/// Log storage configuration.
#[derive(Debug)]
pub struct LogStorageConfig {
    /// Storage backend selector. Default: memory.
    pub backend: LogStorageBackend,
    /// Maximum memory budget for the in-memory hot buffer.
    /// When approached, oldest logs are evicted.
    /// Default: 100MB. Use human-readable formats: "100MB", "1GB", etc.
    pub hot_memory_limit: String,
    /// Maximum log lines to keep per process in the hot buffer.
    /// Default: 100000.
    pub hot_max_lines_per_process: usize,
    /// SQLite-backend retention settings, for the SQLite backend.
    pub sqlite: SqliteStorageConfig,
}

impl Default for LogStorageConfig {
    fn default() -> (r: Self)
        ensures
            r.is_default(),
    {
        LogStorageConfig {
            backend: Default::default(),
            hot_memory_limit: "100MB".to_owned(),
            hot_max_lines_per_process: 100_000,
            sqlite: Default::default(),
        }
    }
}

/// The hot buffer's memory limit where the configured one cannot be read: 100
/// MB.
pub const FALLBACK_MEMORY_LIMIT: usize = 104_857_600;

/// The database's size limit where the configured one cannot be read: 512 MB.
pub const FALLBACK_MAX_SIZE: usize = 536_870_912;

impl LogStorageConfig {
    /// Whether every setting is the default one.
    pub open spec fn is_default(self) -> bool {
        &&& self.backend == LogStorageBackend::Memory
        &&& self.hot_memory_limit@ == "100MB"@
        &&& self.hot_max_lines_per_process == 100_000
        &&& self.sqlite.is_default()
    }

    /// Parse the hot-buffer memory limit string and return bytes.
    /// Supports formats like "100MB", "1GB", "500KB", or plain number (bytes).
    pub fn hot_memory_limit_bytes(&self) -> (r: usize)
        ensures
            r == match byte_size::byte_size(self.hot_memory_limit@) {
                Some(size) => size,
                None => FALLBACK_MEMORY_LIMIT as int,
            },
    {
        match parse_byte_size(self.hot_memory_limit.as_str()) {
            Some(size) => size,
            None => FALLBACK_MEMORY_LIMIT,
        }
    }
}

/// SQLite-backed log storage retention configuration.
#[derive(Debug)]
pub struct SqliteStorageConfig {
    /// Maximum on-disk database size. Oldest rows are pruned when approached.
    /// Default: 512MB. Use human-readable formats: "512MB", "1GB", etc.
    pub max_size: String,
    /// Maximum persisted log lines to keep per process.
    /// Default: 250000.
    pub max_lines_per_process: usize,
}

impl Default for SqliteStorageConfig {
    fn default() -> (r: Self)
        ensures
            r.is_default(),
    {
        SqliteStorageConfig { max_size: "512MB".to_owned(), max_lines_per_process: 250_000 }
    }
}

impl SqliteStorageConfig {
    /// Whether every setting is the default one.
    pub open spec fn is_default(self) -> bool {
        self.max_size@ == "512MB"@ && self.max_lines_per_process == 250_000
    }

    /// Parse the persistent max-size string and return bytes.
    pub fn max_size_bytes(&self) -> (r: usize)
        ensures
            r == match byte_size::byte_size(self.max_size@) {
                Some(size) => size,
                None => FALLBACK_MAX_SIZE as int,
            },
    {
        match parse_byte_size(self.max_size.as_str()) {
            Some(size) => size,
            None => FALLBACK_MAX_SIZE,
        }
    }
}

/// Log colorization configuration.
#[derive(Debug)]
pub struct LogColorConfig {
    /// Preserve ANSI colors from command output (default: true).
    pub preserve_ansi: bool,
    /// Pattern-based colorization rules.
    /// Each rule maps a regex pattern to a color name.
    pub rules: Vec<ColorRule>,
    /// Enable JSON log parsing (default: false).
    pub parse_json: bool,
    /// JSON field to use as log level (e.g., "level", "severity").
    pub json_level_field: Option<String>,
    /// JSON field to use as message (e.g., "msg", "message").
    pub json_message_field: Option<String>,
}

impl LogColorConfig {
    /// Whether every setting is the default one.
    pub open spec fn is_default(self) -> bool {
        &&& self.preserve_ansi
        &&& self.rules@.len() == 4
        &&& self.rules@[0].maps("(?i)\\berror\\b"@, "red"@)
        &&& self.rules@[1].maps("(?i)\\bwarn(ing)?\\b"@, "yellow"@)
        &&& self.rules@[2].maps("(?i)\\binfo\\b"@, "green"@)
        &&& self.rules@[3].maps("(?i)\\bdebug\\b"@, "gray"@)
        &&& !self.parse_json
        &&& text::opt_text(self.json_level_field) == Some("level"@)
        &&& text::opt_text(self.json_message_field) == Some("msg"@)
    }
}

impl Default for LogColorConfig {
    fn default() -> (r: Self)
        ensures
            r.is_default(),
    {
        let mut rules: Vec<ColorRule> = Vec::new();
        rules.push(ColorRule::new("(?i)\\berror\\b", "red"));
        rules.push(ColorRule::new("(?i)\\bwarn(ing)?\\b", "yellow"));
        rules.push(ColorRule::new("(?i)\\binfo\\b", "green"));
        rules.push(ColorRule::new("(?i)\\bdebug\\b", "gray"));
        LogColorConfig {
            preserve_ansi: true,
            rules,
            parse_json: false,
            json_level_field: Some("level".to_owned()),
            json_message_field: Some("msg".to_owned()),
        }
    }
}

/// A pattern-based colorization rule.
#[derive(Debug)]
pub struct ColorRule {
    /// Regex pattern to match against log content.
    pub pattern: String,
    /// Color name: red, green, yellow, blue, magenta, cyan, white, gray.
    pub color: String,
}

impl ColorRule {
    /// Whether this is the rule for a pattern and a color.
    pub open spec fn maps(self, pattern: Text, color: Text) -> bool {
        self.pattern@ == pattern && self.color@ == color
    }

    /// The rule for a pattern and a color.
    pub fn new(pattern: &str, color: &str) -> (r: Self)
        ensures
            r.maps(pattern@, color@),
    {
        ColorRule { pattern: pattern.to_owned(), color: color.to_owned() }
    }
}

/// TUI style preference for user config.
#[derive(Debug, Clone, Copy, PartialEq, Eq, Structural)]
pub enum TuiStylePreference {
    /// Full style with group tree and logs pane.
    Full,
    /// Multi-pane style with one pane per task.
    MultiPane,
}

impl Default for TuiStylePreference {
    fn default() -> (r: Self)
        ensures
            r == TuiStylePreference::Full,
    {
        TuiStylePreference::Full
    }
}

/// Where the user configuration file is.
pub open spec fn user_config_file(xdg: Option<Text>, home: Option<Text>) -> Text {
    let dir = match xdg {
        Some(xdg) => xdg,
        None => match home {
            Some(home) => paths::joined(home, ".config"@),
            None => "."@,
        },
    };
    paths::joined(paths::joined(dir, "zaz"@), "config.toml"@)
}

/// Get the path to the user configuration file, given `$XDG_CONFIG_HOME` and
/// `$HOME`.
///
/// Uses XDG Base Directory specification:
/// - `$XDG_CONFIG_HOME/zaz/config.toml` if set
/// - Otherwise `~/.config/zaz/config.toml`
pub fn user_config_path(xdg_config_home: Option<&str>, home: Option<&str>) -> (r: String)
    ensures
        r@ == user_config_file(
            match xdg_config_home {
                Some(x) => Some(x@),
                None => None,
            },
            match home {
                Some(x) => Some(x@),
                None => None,
            },
        ),
{
    let config_dir = match xdg_config_home {
        Some(xdg) => xdg.to_owned(),
        None => match home {
            Some(home) => paths::join(home, ".config"),
            None => ".".to_owned(),
        },
    };
    paths::join(paths::join(config_dir.as_str(), "zaz").as_str(), "config.toml")
}

/// The user configuration to go by, given what could be read and parsed: the
/// defaults where there is none, or none that can be parsed. User configuration
/// is optional and does not block startup.
pub fn load_user_config_from(parsed: Option<UserConfig>) -> (r: UserConfig)
    ensures
        match parsed {
            Some(config) => r == config,
            None => r.is_default(),
        },
{
    match parsed {
        Some(config) => config,
        None => Default::default(),
    }
}

} // verus!
