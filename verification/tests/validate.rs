use zaz::config::schema::{Config, DaemonCommand, Group, TaskCommand};
use zaz::config::validate::{
    detect_cycle, format_available_hint, report_pattern, suggest_similar, validate,
};
use zaz::config::error::ValidationErrors;

fn names(list: &[&str]) -> Vec<String> {
    list.iter().map(|s| s.to_string()).collect()
}

fn make_group(name: &str) -> Group {
    Group {
        name: name.to_string(),
        patterns: vec!["**/*.rs".to_string()],
        ..Default::default()
    }
}

#[test]
fn test_valid_config() {
    let config = Config {
        groups: vec![make_group("backend"), make_group("frontend")],
        ..Default::default()
    };
    assert!(validate(&config).is_ok());
}

#[test]
fn test_duplicate_group_names() {
    let config = Config {
        groups: vec![make_group("backend"), make_group("backend")],
        ..Default::default()
    };
    let err = validate(&config).unwrap_err();
    assert!(err.to_string().contains("duplicate name"));
}

#[test]
fn test_empty_group_name() {
    let config = Config {
        groups: vec![make_group("")],
        ..Default::default()
    };
    let err = validate(&config).unwrap_err();
    assert!(err.to_string().contains("name cannot be empty"));
}

#[test]
fn test_unknown_dependency() {
    let mut group = make_group("frontend");
    group.depends_on = vec!["nonexistent".to_string()];
    let config = Config {
        groups: vec![group],
        ..Default::default()
    };
    let err = validate(&config).unwrap_err();
    assert!(err.to_string().contains("unknown group"));
}

#[test]
fn test_self_dependency() {
    let mut group = make_group("backend");
    group.depends_on = vec!["backend".to_string()];
    let config = Config {
        groups: vec![group],
        ..Default::default()
    };
    let err = validate(&config).unwrap_err();
    assert!(err.to_string().contains("cannot depend on itself"));
}

#[test]
fn test_dependency_cycle() {
    let mut a = make_group("a");
    a.depends_on = vec!["b".to_string()];
    let mut b = make_group("b");
    b.depends_on = vec!["c".to_string()];
    let mut c = make_group("c");
    c.depends_on = vec!["a".to_string()];

    let config = Config {
        groups: vec![a, b, c],
        ..Default::default()
    };
    let err = validate(&config).unwrap_err();
    assert!(err.to_string().contains("cycle detected"));
}

#[test]
fn test_invalid_pattern() {
    let mut group = make_group("backend");
    group.patterns = vec!["[invalid".to_string()];
    let config = Config {
        groups: vec![group],
        ..Default::default()
    };
    let err = validate(&config).unwrap_err();
    assert!(err.to_string().contains("invalid pattern"));
}

#[test]
fn test_empty_task_command() {
    let mut group = make_group("backend");
    group.tasks = vec![TaskCommand::new("test", "")];
    let config = Config {
        groups: vec![group],
        ..Default::default()
    };
    let err = validate(&config).unwrap_err();
    assert!(err.to_string().contains("empty command"));
}

#[test]
fn test_duplicate_task_names_explicit() {
    // Explicit duplicate names should error without hint
    let mut group = make_group("backend");
    group.tasks = vec![
        TaskCommand::new("test", "echo 1"),
        TaskCommand::new("test", "echo 2"),
    ];
    let config = Config {
        groups: vec![group],
        ..Default::default()
    };
    let err = validate(&config).unwrap_err();
    let msg = err.to_string();
    assert!(msg.contains("duplicate task name 'test'"));
    // Explicit names should NOT get the hint
    assert!(!msg.contains("use explicit 'name' field"));
}

#[test]
fn test_duplicate_task_names_derived() {
    // Derived duplicate names should error with hint
    // Both commands derive to "cargo" (flags stop the derivation)
    let mut group = make_group("backend");
    group.tasks = vec![
        TaskCommand::from_command("cargo --version"),
        TaskCommand::from_command("cargo -V"),
    ];
    let config = Config {
        groups: vec![group],
        ..Default::default()
    };
    let err = validate(&config).unwrap_err();
    let msg = err.to_string();
    assert!(msg.contains("duplicate task name 'cargo'"));
    assert!(msg.contains("use explicit 'name' field to disambiguate"));
}

#[test]
fn test_explicit_names_disambiguate() {
    // Explicit names should allow same-prefix commands
    let mut group = make_group("backend");
    group.tasks = vec![
        TaskCommand::new("build", "cargo build"),
        TaskCommand::new("test", "cargo test"),
    ];
    let config = Config {
        groups: vec![group],
        ..Default::default()
    };
    assert!(validate(&config).is_ok());
}

#[test]
fn test_derived_names_unique() {
    // Different derived names should be valid
    let mut group = make_group("backend");
    group.tasks = vec![
        TaskCommand::from_command("cargo build"),
        TaskCommand::from_command("npm test"),
    ];
    let config = Config {
        groups: vec![group],
        ..Default::default()
    };
    assert!(validate(&config).is_ok());
}

#[test]
fn test_mixed_explicit_and_derived_names() {
    // Mix of explicit and derived names that don't conflict
    let mut group = make_group("backend");
    group.tasks = vec![
        TaskCommand::new("build", "cargo build --release"),
        TaskCommand::from_command("npm install"),
    ];
    let config = Config {
        groups: vec![group],
        ..Default::default()
    };
    assert!(validate(&config).is_ok());
}

#[test]
fn test_derived_name_conflicts_with_explicit() {
    // Derived name that conflicts with an explicit name
    // "cargo --help" derives to "cargo" which conflicts with explicit "cargo"
    let mut group = make_group("backend");
    group.tasks = vec![
        TaskCommand::new("cargo", "echo explicit"),
        TaskCommand::from_command("cargo --help"),
    ];
    let config = Config {
        groups: vec![group],
        ..Default::default()
    };
    let err = validate(&config).unwrap_err();
    let msg = err.to_string();
    assert!(msg.contains("duplicate task name 'cargo'"));
    // The derived one should get the hint
    assert!(msg.contains("use explicit 'name' field to disambiguate"));
}

#[test]
fn test_suggest_similar_basic() {
    // Test the suggest_similar helper function
    let valid = names(&["backend", "frontend", "protobuf"]);
    assert_eq!(suggest_similar("bacend", &valid), Some("backend")); // 1 char diff
    assert_eq!(suggest_similar("frontent", &valid), Some("frontend")); // 1 char diff
    assert_eq!(suggest_similar("protobufs", &valid), Some("protobuf")); // 1 char diff
    assert_eq!(suggest_similar("totally_different", &valid), None); // too different
}

#[test]
fn test_unknown_dependency_with_typo_hint() {
    // Typo in dependency name should suggest the correct name
    let mut frontend = make_group("frontend");
    frontend.depends_on = vec!["bacend".to_string()]; // typo: should be "backend"
    let config = Config {
        groups: vec![make_group("backend"), frontend],
        ..Default::default()
    };
    let err = validate(&config).unwrap_err();
    let msg = err.to_string();
    assert!(msg.contains("unknown group 'bacend'"));
    assert!(msg.contains("did you mean 'backend'?"));
}

#[test]
fn test_unknown_dependency_lists_available() {
    // No close match should list available groups
    let mut frontend = make_group("frontend");
    frontend.depends_on = vec!["totally_different".to_string()];
    let config = Config {
        groups: vec![make_group("backend"), make_group("protobuf"), frontend],
        ..Default::default()
    };
    let err = validate(&config).unwrap_err();
    let msg = err.to_string();
    assert!(msg.contains("unknown group 'totally_different'"));
    assert!(msg.contains("available groups are:"));
    assert!(msg.contains("backend"));
    assert!(msg.contains("protobuf"));
}

#[test]
fn test_dependency_cycle_hint() {
    // Cycle detection should include the cycle path in hint
    let mut a = make_group("a");
    a.depends_on = vec!["b".to_string()];
    let mut b = make_group("b");
    b.depends_on = vec!["c".to_string()];
    let mut c = make_group("c");
    c.depends_on = vec!["a".to_string()];

    let config = Config {
        groups: vec![a, b, c],
        ..Default::default()
    };
    let err = validate(&config).unwrap_err();
    let msg = err.to_string();
    assert!(msg.contains("cycle detected"));
    assert!(msg.contains("hint: cycle:"));
}

#[test]
fn test_format_available_hint() {
    assert_eq!(format_available_hint(&names(&[])), "no groups are defined");
    assert_eq!(
        format_available_hint(&names(&["a", "b"])),
        "available groups are: a, b"
    );
    assert_eq!(
        format_available_hint(&names(&["a", "b", "c", "d", "e", "f"])),
        "available groups are: a, b, c, d, and 2 more"
    );
}

#[test]
fn hints_pass_over_empty_names() {
    assert_eq!(
        format_available_hint(&names(&["", "a", ""])),
        "available groups are: a"
    );
    assert_eq!(
        format_available_hint(&names(&["a", "b", "c", "d", "e"])),
        "available groups are: a, b, c, d, e"
    );
}

#[test]
fn the_first_of_the_closest_names_is_suggested() {
    let valid = names(&["abxy", "abcx", "abcy"]);
    assert_eq!(suggest_similar("abcd", &valid), Some("abcx"));
    // The name itself is no suggestion.
    assert_eq!(suggest_similar("abcx", &names(&["abcx"])), None);
}

#[test]
fn every_pattern_is_tried() {
    let mut group = make_group("backend");
    group.patterns = vec!["**/*.rs".to_string(), "{a".to_string()];
    group.ignore = vec!["[b".to_string()];
    let config = Config {
        groups: vec![group],
        ..Default::default()
    };
    let err = validate(&config).unwrap_err();
    assert_eq!(err.len(), 2);
    let msg = err.to_string();
    assert!(msg.contains("invalid pattern '{a'"));
    assert!(msg.contains("invalid ignore pattern '[b'"));
}

#[test]
fn a_pattern_is_reported_with_its_error() {
    let mut errors = ValidationErrors::new();
    report_pattern("g", "[", true, Some("unclosed".to_string()), &mut errors);
    report_pattern("g", "*", false, None, &mut errors);
    assert_eq!(errors.len(), 1);
    assert_eq!(
        errors.errors[0].to_string(),
        "group 'g': invalid ignore pattern '[': unclosed"
    );
}

#[test]
fn daemons_are_checked_like_tasks() {
    let mut group = make_group("backend");
    group.daemons = vec![
        DaemonCommand::new("srv", ""),
        DaemonCommand::new("srv", "./srv"),
    ];
    let config = Config {
        groups: vec![group],
        ..Default::default()
    };
    let msg = validate(&config).unwrap_err().to_string();
    assert_eq!(
        msg,
        "configuration validation failed:\ngroup 'backend': daemon 'srv' has empty command\n\
         group 'backend': duplicate daemon name 'srv'"
    );
}

#[test]
fn a_group_without_anything_in_it_is_an_error() {
    let config = Config {
        groups: vec![Group {
            name: "empty".to_string(),
            ..Default::default()
        }],
        ..Default::default()
    };
    let msg = validate(&config).unwrap_err().to_string();
    assert!(msg.contains("group 'empty': has no patterns and no commands"));
}

#[test]
fn a_cycle_starts_and_ends_with_the_same_group() {
    let mut a = make_group("a");
    a.depends_on = names(&["b"]);
    let mut b = make_group("b");
    b.depends_on = names(&["c"]);
    let mut c = make_group("c");
    c.depends_on = names(&["b"]);
    let config = Config {
        groups: vec![a, b, c],
        ..Default::default()
    };
    assert_eq!(detect_cycle(&config), Some(names(&["b", "c", "b"])));
}

#[test]
fn derived_names_end_at_the_first_flag() {
    for (command, name) in [
        ("cargo build", "cargo build"),
        ("cargo build --release", "cargo build"),
        ("cargo -V", "cargo"),
        ("docker-compose up", "docker-compose up"),
        ("docker-compose up -d", "docker-compose up"),
        ("  go  test\t-v", "go  test"),
        ("-x", ""),
        ("echo a-b -c", "echo a-b"),
        ("echo $HOME", "echo"),
        ("ls|wc", "ls"),
        ("sort <in >out", "sort"),
    ] {
        assert_eq!(TaskCommand::from_command(command).name(), name);
        assert_eq!(DaemonCommand::from_command(command).name(), name);
    }
}
