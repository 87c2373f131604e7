use zaz::config::discovery::{
    config_candidates, config_file_names, config_format, discover_config_upward, discover_in, load,
    ConfigFormat,
};
use zaz::config::error::ConfigError;
use zaz::config::schema::{Config, Group};
use zaz::daemon::api::ApiResponse;
use zaz::daemon::error::DaemonError;
use zaz::daemon::server::{
    connection_reply, default_socket_path, resolve_socket, socket_path_for_config, LineOutcome,
    SocketSite,
};
use zaz::paths::{hash_name_of, join};

fn texts(list: &[&str]) -> Vec<String> {
    list.iter().map(|s| s.to_string()).collect()
}

/// The site of a configuration file, with a hash that tells files apart.
fn site(config: &str) -> SocketSite {
    SocketSite {
        project_dir: Some("/p".to_string()),
        has_zaz_dir: false,
        hash: config.len() as u64,
        home: Some("/home/u".to_string()),
        user: Some("u".to_string()),
    }
}

/// What is discovered from a directory, with the given files there.
fn discovered(dirs: &[&str], files: &[&str]) -> Option<SocketSite> {
    discover_config_upward(&texts(dirs), &texts(files)).map(|path| site(&path))
}

#[test]
fn test_default_socket_path() {
    let none = None;
    let runtime = Some("/run/user/7".to_string());
    assert_eq!(
        default_socket_path(&runtime, &none, &none),
        "/run/user/7/zaz.sock"
    );
    let home = Some("/home/u".to_string());
    assert_eq!(
        default_socket_path(&none, &home, &none),
        "/home/u/.local/state/zaz/zaz.sock"
    );
    let user = Some("u".to_string());
    assert_eq!(default_socket_path(&none, &none, &user), "/tmp/zaz-u.sock");
    assert_eq!(
        default_socket_path(&none, &none, &none),
        "/tmp/zaz-unknown.sock"
    );
}

#[test]
fn test_resolve_socket_explicit_socket_wins() {
    let explicit = "/p/custom.sock".to_string();
    let resolved = resolve_socket(
        Some(explicit.clone()),
        "/p",
        discovered(&["/p"], &["/p/zaz.toml"]),
    )
    .unwrap();
    assert_eq!(resolved, explicit);
}

#[test]
fn test_resolve_socket_uses_local_toml_config() {
    let resolved = resolve_socket(None, "/p", discovered(&["/p"], &["/p/zaz.toml"])).unwrap();
    assert_eq!(resolved, socket_path_for_config(&site("/p/zaz.toml")));
}

#[test]
fn test_resolve_socket_walks_upward_to_parent_config() {
    let dirs = ["/p/a/b/c", "/p/a/b", "/p/a", "/p", "/"];
    let resolved = resolve_socket(None, "/p/a/b/c", discovered(&dirs, &["/p/zaz.toml"])).unwrap();
    assert_eq!(resolved, socket_path_for_config(&site("/p/zaz.toml")));
}

#[test]
fn test_resolve_socket_prefers_toml_before_json() {
    let found = discover_config_upward(&texts(&["/p"]), &texts(&["/p/zaz.json", "/p/zaz.toml"]));
    assert_eq!(found.as_deref(), Some("/p/zaz.toml"));
    let found = discovered(&["/p"], &["/p/zaz.json", "/p/zaz.toml"]);
    let resolved = resolve_socket(None, "/p", found).unwrap();
    assert_eq!(resolved, socket_path_for_config(&site("/p/zaz.toml")));
}

#[test]
fn test_resolve_socket_uses_json_when_toml_absent() {
    let found = discover_config_upward(&texts(&["/p"]), &texts(&["/p/zaz.json"]));
    assert_eq!(found.as_deref(), Some("/p/zaz.json"));
    let resolved = resolve_socket(None, "/p", discovered(&["/p"], &["/p/zaz.json"])).unwrap();
    assert_eq!(resolved, socket_path_for_config(&site("/p/zaz.json")));
}

#[test]
fn test_resolve_socket_errors_when_no_project_config_found() {
    let dirs = ["/p/a/b/c", "/p/a/b", "/p/a", "/p", "/"];
    let err = resolve_socket(None, "/p/a/b/c", discovered(&dirs, &[])).unwrap_err();
    match &err {
        DaemonError::SocketResolution { start_dir } => assert_eq!(start_dir, "/p/a/b/c"),
        other => panic!("expected SocketResolution error, got {:?}", other),
    }
    let message = err.to_string();
    assert!(message.contains("could not resolve daemon socket from"));
    assert_eq!(
        err.hint(),
        Some("run this command from a zaz project directory or pass --socket <PATH>")
    );
}

#[test]
fn a_project_with_its_own_directory_keeps_the_socket_there() {
    let mut here = site("/p/zaz.toml");
    here.has_zaz_dir = true;
    assert_eq!(socket_path_for_config(&here), "/p/.zaz/daemon.sock");
    here.has_zaz_dir = false;
    assert_eq!(
        socket_path_for_config(&here),
        "/home/u/.local/state/zaz/000000000000000b.sock"
    );
    here.home = None;
    assert_eq!(
        socket_path_for_config(&here),
        "/tmp/zaz-u/000000000000000b.sock"
    );
}

#[test]
fn hashes_are_written_as_sixteen_digits() {
    for hash in [0u64, 1, 0xdead_beef, u64::MAX, 0x0123_4567_89ab_cdef] {
        assert_eq!(hash_name_of(hash, ".x"), format!("{:016x}.x", hash));
    }
}

#[test]
fn paths_join_with_one_slash() {
    assert_eq!(join("/a", "b"), "/a/b");
    assert_eq!(join("/", "b"), "/b");
    assert_eq!(join("/a/", "b"), "/a/b");
    assert_eq!(join("", "b"), "b");
}

#[test]
fn every_line_of_a_connection_is_answered() {
    match connection_reply(LineOutcome::Answered(ApiResponse::ok_with_message("yes"))) {
        ApiResponse::Success { message } => assert_eq!(message.as_deref(), Some("yes")),
        _ => panic!("expected the answer"),
    }
    for outcome in [
        LineOutcome::Invalid("eof".to_string()),
        LineOutcome::Unavailable,
        LineOutcome::Unanswered,
    ] {
        assert!(matches!(
            connection_reply(outcome),
            ApiResponse::Error { .. }
        ));
    }
    match connection_reply(LineOutcome::Invalid("eof".to_string())) {
        ApiResponse::Error { message } => assert_eq!(message, "invalid request: eof"),
        _ => panic!("expected an error"),
    }
}

#[test]
fn configuration_files_are_looked_for_directory_by_directory() {
    assert_eq!(config_file_names(), vec!["zaz.toml", "zaz.json"]);
    assert_eq!(
        config_candidates(&texts(&["/p/a", "/p"])),
        vec!["/p/a/zaz.toml", "/p/a/zaz.json", "/p/zaz.toml", "/p/zaz.json"]
    );
    let nearest = discover_config_upward(
        &texts(&["/p/a", "/p"]),
        &texts(&["/p/zaz.toml", "/p/a/zaz.json"]),
    );
    assert_eq!(nearest.as_deref(), Some("/p/a/zaz.json"));
}

#[test]
fn a_directory_without_a_configuration_is_an_error() {
    assert_eq!(
        discover_in("/p", &texts(&["/p/zaz.json"])).unwrap(),
        "/p/zaz.json"
    );
    match discover_in("/p", &texts(&[])) {
        Err(ConfigError::NotFound { searched }) => {
            assert_eq!(searched, vec!["/p/zaz.toml", "/p/zaz.json"])
        }
        _ => panic!("expected NotFound"),
    }
}

#[test]
fn the_ending_of_a_file_tells_its_format() {
    assert!(matches!(
        config_format("a.toml", Some("toml")),
        Ok(ConfigFormat::Toml)
    ));
    assert!(matches!(
        config_format("a.json", Some("json")),
        Ok(ConfigFormat::Json)
    ));
    for ending in [Some("yaml"), Some("TOML"), None] {
        assert!(matches!(
            config_format("a", ending),
            Err(ConfigError::UnknownFormat { .. })
        ));
    }
}

#[test]
fn what_is_loaded_is_valid() {
    let mut config = Config::default();
    config.groups.push(Group::default());
    assert!(load(Ok(config)).unwrap_err().is_validation());
    assert!(load(Ok(Config::default())).is_ok());
    assert!(matches!(
        load(Err(ConfigError::Json("eof".to_string()))),
        Err(ConfigError::Json(_))
    ));
}
