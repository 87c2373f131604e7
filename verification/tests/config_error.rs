use zaz::config::error::{
    ConfigError, Span, ValidationError, ValidationErrorKind, ValidationErrors,
};

#[test]
fn test_not_found_error_display() {
    let err = ConfigError::NotFound {
        searched: vec!["zaz.toml".to_string(), "zaz.json".to_string()],
    };
    let msg = err.to_string();
    assert!(msg.contains("zaz.toml"));
    assert!(msg.contains("zaz.json"));
}

#[test]
fn test_toml_error_with_span() {
    let err = ConfigError::Toml {
        message: "expected value".to_string(),
        span: Some(10..15),
    };
    let msg = err.to_string();
    assert!(msg.contains("expected value"));
    assert!(msg.contains("bytes 10..15"));
}

#[test]
fn test_validation_error() {
    let mut errors = ValidationErrors::new();
    errors.push(ValidationError::new(
        ValidationErrorKind::DuplicateGroupName {
            name: "foo".to_string(),
            first_index: 0,
            second_index: 1,
        },
    ));
    let err = ConfigError::Validation(errors);
    assert!(err.is_validation());
    assert!(err.to_string().contains("duplicate name"));
}

#[test]
fn test_validation_error_with_span_and_hint() {
    let error = ValidationError::new(ValidationErrorKind::UnknownDependency {
        group: "frontend".to_string(),
        dependency: "star".to_string(),
    })
    .with_span(Span::new(23, 1))
    .with_hint("Available groups are: backend, protobuf");

    let msg = error.to_string();
    assert!(msg.contains("23:1"));
    assert!(msg.contains("unknown group 'star'"));
    assert!(msg.contains("hint: Available groups are"));
}

#[test]
fn test_validation_error_codes() {
    assert_eq!(
        ValidationErrorKind::EmptyGroupName { index: 0 }.code(),
        "empty_group_name"
    );
    assert_eq!(
        ValidationErrorKind::DependencyCycle {
            cycle: vec!["a".to_string()]
        }
        .code(),
        "dependency_cycle"
    );
}

#[test]
fn test_validation_errors_collection() {
    let mut errors = ValidationErrors::new();
    assert!(errors.is_empty());
    assert_eq!(errors.len(), 0);

    errors.push(ValidationError::new(ValidationErrorKind::EmptyGroupName {
        index: 0,
    }));
    errors.push(ValidationError::new(ValidationErrorKind::EmptyGroupName {
        index: 1,
    }));

    assert!(!errors.is_empty());
    assert_eq!(errors.len(), 2);
    assert_eq!(errors.iter().count(), 2);

    // Test into_result
    let result = errors.into_result();
    assert!(result.is_err());
}

#[test]
fn test_span_byte_to_line_column() {
    let source = "line1\nname = \"test\"\nline3";
    // "name" starts at byte 6 (after "line1\n")
    let span = Span::from_byte_offset(source, 6);
    assert_eq!(span.line, 2);
    assert_eq!(span.column, 1);
}

#[test]
fn span_counts_characters_of_several_bytes_as_one_column() {
    let source = "\u{e9}\u{e9}x";
    let span = Span::from_byte_offset(source, 4);
    assert_eq!((span.line, span.column), (1, 3));
    assert_eq!(span.to_string(), "1:3");
}

#[test]
fn config_errors_in_words() {
    let io = ConfigError::Io {
        path: "zaz.toml".to_string(),
        source: "permission denied".to_string(),
    };
    assert_eq!(
        io.to_string(),
        "failed to read config file zaz.toml: permission denied"
    );
    let format = ConfigError::UnknownFormat {
        path: "zaz.yaml".to_string(),
    };
    assert_eq!(
        format.to_string(),
        "unknown config format for zaz.yaml (expected .toml or .json)"
    );
    let json = ConfigError::Json("trailing comma".to_string());
    assert_eq!(json.to_string(), "JSON parse error: trailing comma");
    let toml = ConfigError::Toml {
        message: "bad".to_string(),
        span: None,
    };
    assert_eq!(toml.to_string(), "TOML parse error: bad");
    assert!(!toml.is_validation());
}

#[test]
fn every_validation_error_has_words_and_a_code() {
    let kinds = vec![
        (
            ValidationErrorKind::DuplicateGroupName {
                name: "a".to_string(),
                first_index: 0,
                second_index: 12,
            },
            "group[12]: duplicate name 'a' (first defined at group[0])",
            "duplicate_group_name",
        ),
        (
            ValidationErrorKind::EmptyGroup {
                name: "a".to_string(),
            },
            "group 'a': has no patterns and no commands",
            "empty_group",
        ),
        (
            ValidationErrorKind::SelfDependency {
                group: "a".to_string(),
            },
            "group 'a': cannot depend on itself",
            "self_dependency",
        ),
        (
            ValidationErrorKind::DependencyCycle {
                cycle: vec!["a".to_string(), "b".to_string(), "a".to_string()],
            },
            "dependency cycle detected: a -> b -> a",
            "dependency_cycle",
        ),
        (
            ValidationErrorKind::InvalidIgnorePattern {
                group: "a".to_string(),
                pattern: "[".to_string(),
                error: "unclosed".to_string(),
            },
            "group 'a': invalid ignore pattern '[': unclosed",
            "invalid_ignore_pattern",
        ),
        (
            ValidationErrorKind::EmptyDaemonCommand {
                group: "a".to_string(),
                daemon: "d".to_string(),
            },
            "group 'a': daemon 'd' has empty command",
            "empty_daemon_command",
        ),
        (
            ValidationErrorKind::DuplicateDaemonName {
                group: "a".to_string(),
                name: "d".to_string(),
                is_explicit: false,
            },
            "group 'a': duplicate daemon name 'd' (use explicit 'name' field to disambiguate)",
            "duplicate_daemon_name",
        ),
    ];
    for (kind, words, code) in kinds {
        assert_eq!(kind.to_string(), words);
        assert_eq!(kind.code(), code);
    }
}
