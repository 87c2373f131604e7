use zaz::config::byte_size::parse_byte_size;
use zaz::config::user::{
    load_user_config_from, user_config_path, LogColorConfig, LogStorageBackend, LogStorageConfig,
    NotificationConfig, SqliteStorageConfig, TuiStylePreference, UserConfig,
};

#[test]
fn test_default_user_config() {
    let config = UserConfig::default();
    assert!(!config.no_autostart);
    assert!(!config.disable_animations);
    assert!(config.tui_style.is_none());
}

#[test]
fn test_parse_byte_size() {
    // Plain numbers
    assert_eq!(parse_byte_size("1024"), Some(1024));
    assert_eq!(parse_byte_size("0"), Some(0));

    // Bytes
    assert_eq!(parse_byte_size("100B"), Some(100));
    assert_eq!(parse_byte_size("100b"), Some(100));

    // Kilobytes
    assert_eq!(parse_byte_size("1KB"), Some(1024));
    assert_eq!(parse_byte_size("1kb"), Some(1024));
    assert_eq!(parse_byte_size("10KB"), Some(10 * 1024));

    // Megabytes
    assert_eq!(parse_byte_size("1MB"), Some(1024 * 1024));
    assert_eq!(parse_byte_size("100MB"), Some(100 * 1024 * 1024));
    assert_eq!(parse_byte_size("100mb"), Some(100 * 1024 * 1024));

    // Gigabytes
    assert_eq!(parse_byte_size("1GB"), Some(1024 * 1024 * 1024));
    assert_eq!(parse_byte_size("2GB"), Some(2 * 1024 * 1024 * 1024));

    // Fractional values
    assert_eq!(
        parse_byte_size("1.5MB"),
        Some((1.5 * 1024.0 * 1024.0) as usize)
    );
    assert_eq!(
        parse_byte_size("0.5GB"),
        Some((0.5 * 1024.0 * 1024.0 * 1024.0) as usize)
    );

    // With whitespace
    assert_eq!(parse_byte_size("  100MB  "), Some(100 * 1024 * 1024));
    assert_eq!(parse_byte_size("100 MB"), Some(100 * 1024 * 1024));

    // Invalid
    assert_eq!(parse_byte_size(""), None);
    assert_eq!(parse_byte_size("invalid"), None);
    assert_eq!(parse_byte_size("100TB"), None); // TB not supported
}

#[test]
fn test_log_storage_config_default() {
    let config = LogStorageConfig::default();
    assert_eq!(config.backend, LogStorageBackend::Memory);
    assert_eq!(config.hot_memory_limit, "100MB");
    assert_eq!(config.hot_max_lines_per_process, 100_000);
    assert_eq!(config.hot_memory_limit_bytes(), 100 * 1024 * 1024);
    assert_eq!(config.sqlite.max_size, "512MB");
    assert_eq!(config.sqlite.max_lines_per_process, 250_000);
}

#[test]
fn test_sqlite_storage_config_default() {
    let config = SqliteStorageConfig::default();
    assert_eq!(config.max_size, "512MB");
    assert_eq!(config.max_lines_per_process, 250_000);
    assert_eq!(config.max_size_bytes(), 512 * 1024 * 1024);
}

#[test]
fn test_user_config_path() {
    let path = user_config_path(None, Some("/home/u"));
    assert!(path.contains("zaz") && path.contains("config.toml"));
    assert_eq!(path, "/home/u/.config/zaz/config.toml");
    assert_eq!(
        user_config_path(Some("/xdg"), Some("/home/u")),
        "/xdg/zaz/config.toml"
    );
    assert_eq!(user_config_path(None, None), "./zaz/config.toml");
}

#[test]
fn test_load_nonexistent_config() {
    let config = load_user_config_from(None);
    // Should return defaults, not error
    assert!(!config.no_autostart);
    assert!(config.tui_style.is_none());
}

#[test]
fn a_parsed_user_config_is_kept() {
    let mut parsed = UserConfig::default();
    parsed.disable_animations = true;
    parsed.tui_style = Some(TuiStylePreference::MultiPane);
    let config = load_user_config_from(Some(parsed));
    assert!(config.disable_animations);
    assert_eq!(config.tui_style, Some(TuiStylePreference::MultiPane));
}

#[test]
fn default_preferences() {
    assert_eq!(TuiStylePreference::default(), TuiStylePreference::Full);
    let notifications = NotificationConfig::default();
    assert!(!notifications.enabled);
    assert!(notifications.on_failure);
    assert!(!notifications.on_success);
    assert!(notifications.on_group_complete);
    let colors = LogColorConfig::default();
    assert!(colors.preserve_ansi);
    assert!(!colors.parse_json);
    assert_eq!(colors.rules.len(), 4);
    assert_eq!(colors.rules[1].pattern, "(?i)\\bwarn(ing)?\\b");
    assert_eq!(colors.rules[1].color, "yellow");
    assert_eq!(colors.json_level_field.as_deref(), Some("level"));
    assert_eq!(colors.json_message_field.as_deref(), Some("msg"));
}

#[test]
fn unreadable_limits_fall_back() {
    let mut config = LogStorageConfig::default();
    config.hot_memory_limit = "lots".to_string();
    config.sqlite.max_size = "".to_string();
    assert_eq!(config.hot_memory_limit_bytes(), 100 * 1024 * 1024);
    assert_eq!(config.sqlite.max_size_bytes(), 512 * 1024 * 1024);
}

#[test]
fn byte_sizes_of_every_notation() {
    assert_eq!(parse_byte_size("+12"), Some(12));
    assert_eq!(parse_byte_size("-1MB"), Some(0));
    assert_eq!(parse_byte_size("1e3KB"), Some(1000 * 1024));
    assert_eq!(parse_byte_size("1.5e-1KB"), Some(153));
    assert_eq!(parse_byte_size(".5KB"), Some(512));
    assert_eq!(parse_byte_size("5.KB"), Some(5 * 1024));
    assert_eq!(parse_byte_size("infGB"), Some(usize::MAX));
    assert_eq!(parse_byte_size("-InfinityGB"), Some(0));
    assert_eq!(parse_byte_size("NaNB"), Some(0));
    assert_eq!(parse_byte_size("1e99999999999999999999999999GB"), Some(usize::MAX));
    assert_eq!(parse_byte_size("1e-99999999999999999999999999GB"), Some(0));
    assert_eq!(parse_byte_size("0e99999999999999999999999999GB"), Some(0));
    assert_eq!(parse_byte_size("."), None);
    assert_eq!(parse_byte_size(".B"), None);
    assert_eq!(parse_byte_size("eB"), None);
    assert_eq!(parse_byte_size("1eB"), None);
    assert_eq!(parse_byte_size("1e+B"), None);
    assert_eq!(parse_byte_size("1 2KB"), None);
    assert_eq!(parse_byte_size("99999999999999999999999"), None);
    assert_eq!(parse_byte_size("99999999999999999999999B"), Some(usize::MAX));
}

#[test]
fn byte_sizes_agree_with_floating_point() {
    for number in ["0", "1", "0.1", "0.3", "1.25", "2.7", "99.99", "1023.5", "7e2", "12.5E-1"] {
        for (unit, bytes) in [("B", 1.0), ("KB", 1024.0), ("MB", 1048576.0), ("GB", 1073741824.0)] {
            let expected = (number.parse::<f64>().unwrap() * bytes) as usize;
            let text = format!("{number}{unit}");
            assert_eq!(parse_byte_size(&text), Some(expected), "{text}");
        }
    }
}
