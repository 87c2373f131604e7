use zaz::config::schema::{Group, Silence};
use zaz::daemon::error::DaemonError;
use zaz::daemon::planning::{
    calculate_group_status_from_tasks, compute_config_changes, filter_affected_to_roots,
    should_suppress, topological_sort,
};
use zaz::daemon::state::{GroupStatus, ProcessState, ProcessStatus};

// =========================================================================
// should_suppress() tests
// =========================================================================

#[test]
fn test_should_suppress_none_allows_all() {
    assert!(!should_suppress(Silence::Off, false)); // stdout allowed
    assert!(!should_suppress(Silence::Off, true)); // stderr allowed
}

#[test]
fn test_should_suppress_all_blocks_all() {
    assert!(should_suppress(Silence::All, false)); // stdout blocked
    assert!(should_suppress(Silence::All, true)); // stderr blocked
}

#[test]
fn test_should_suppress_stdout_only() {
    assert!(should_suppress(Silence::Stdout, false)); // stdout blocked
    assert!(!should_suppress(Silence::Stdout, true)); // stderr allowed
}

#[test]
fn test_should_suppress_stderr_only() {
    assert!(!should_suppress(Silence::Stderr, false)); // stdout allowed
    assert!(should_suppress(Silence::Stderr, true)); // stderr blocked
}

// =========================================================================
// topological_sort() tests
// =========================================================================

#[test]
fn test_topological_sort_simple() {
    let groups = vec![
        Group {
            name: "a".to_string(),
            depends_on: vec!["b".to_string()],
            ..Default::default()
        },
        Group {
            name: "b".to_string(),
            ..Default::default()
        },
    ];

    let order = topological_sort(&groups).unwrap();
    assert_eq!(order, vec!["b", "a"]);
}

#[test]
fn test_topological_sort_no_deps() {
    let groups = vec![
        Group {
            name: "a".to_string(),
            ..Default::default()
        },
        Group {
            name: "b".to_string(),
            ..Default::default()
        },
    ];

    let order = topological_sort(&groups).unwrap();
    assert_eq!(order.len(), 2);
    assert!(order.contains(&"a".to_string()));
    assert!(order.contains(&"b".to_string()));
}

#[test]
fn test_topological_sort_cyclic_dependency() {
    let groups = vec![
        Group {
            name: "a".to_string(),
            depends_on: vec!["b".to_string()],
            ..Default::default()
        },
        Group {
            name: "b".to_string(),
            depends_on: vec!["a".to_string()],
            ..Default::default()
        },
    ];

    let result = topological_sort(&groups);
    assert!(matches!(result, Err(DaemonError::CyclicDependency(_))));
}

#[test]
fn test_topological_sort_self_dependency() {
    let groups = vec![Group {
        name: "a".to_string(),
        depends_on: vec!["a".to_string()],
        ..Default::default()
    }];

    let result = topological_sort(&groups);
    assert!(matches!(result, Err(DaemonError::CyclicDependency(_))));
}

#[test]
fn test_topological_sort_diamond_dependency() {
    // Diamond: a depends on b,c; b,c depend on d
    let groups = vec![
        Group {
            name: "a".to_string(),
            depends_on: vec!["b".to_string(), "c".to_string()],
            ..Default::default()
        },
        Group {
            name: "b".to_string(),
            depends_on: vec!["d".to_string()],
            ..Default::default()
        },
        Group {
            name: "c".to_string(),
            depends_on: vec!["d".to_string()],
            ..Default::default()
        },
        Group {
            name: "d".to_string(),
            ..Default::default()
        },
    ];

    let order = topological_sort(&groups).unwrap();

    // d must come before b and c, which must come before a
    let pos_a = order.iter().position(|x| x == "a").unwrap();
    let pos_b = order.iter().position(|x| x == "b").unwrap();
    let pos_c = order.iter().position(|x| x == "c").unwrap();
    let pos_d = order.iter().position(|x| x == "d").unwrap();

    assert!(pos_d < pos_b, "d must come before b");
    assert!(pos_d < pos_c, "d must come before c");
    assert!(pos_b < pos_a, "b must come before a");
    assert!(pos_c < pos_a, "c must come before a");
}

#[test]
fn test_topological_sort_deep_chain() {
    // Linear chain: a -> b -> c -> d -> e
    let groups = vec![
        Group {
            name: "a".to_string(),
            depends_on: vec!["b".to_string()],
            ..Default::default()
        },
        Group {
            name: "b".to_string(),
            depends_on: vec!["c".to_string()],
            ..Default::default()
        },
        Group {
            name: "c".to_string(),
            depends_on: vec!["d".to_string()],
            ..Default::default()
        },
        Group {
            name: "d".to_string(),
            depends_on: vec!["e".to_string()],
            ..Default::default()
        },
        Group {
            name: "e".to_string(),
            ..Default::default()
        },
    ];

    let order = topological_sort(&groups).unwrap();
    assert_eq!(order, vec!["e", "d", "c", "b", "a"]);
}

#[test]
fn test_topological_sort_missing_dependency() {
    // Group depends on non-existent group - function visits it and includes
    // it in the result (graceful handling, doesn't error)
    let groups = vec![Group {
        name: "a".to_string(),
        depends_on: vec!["nonexistent".to_string()],
        ..Default::default()
    }];

    let order = topological_sort(&groups).unwrap();
    // The missing dependency is visited and added to result before "a"
    assert_eq!(order, vec!["nonexistent", "a"]);
}

#[test]
fn test_topological_sort_complex_cycle() {
    // a -> b -> c -> a (3-node cycle)
    let groups = vec![
        Group {
            name: "a".to_string(),
            depends_on: vec!["b".to_string()],
            ..Default::default()
        },
        Group {
            name: "b".to_string(),
            depends_on: vec!["c".to_string()],
            ..Default::default()
        },
        Group {
            name: "c".to_string(),
            depends_on: vec!["a".to_string()],
            ..Default::default()
        },
    ];

    let result = topological_sort(&groups);
    assert!(matches!(result, Err(DaemonError::CyclicDependency(_))));
}

// =========================================================================
// compute_config_changes() tests
// =========================================================================

#[test]
fn test_compute_config_changes_no_changes() {
    let groups = vec![
        Group {
            name: "a".to_string(),
            ..Default::default()
        },
        Group {
            name: "b".to_string(),
            ..Default::default()
        },
    ];

    let (added, removed, modified) = compute_config_changes(&groups, &groups);
    assert!(added.is_empty());
    assert!(removed.is_empty());
    assert!(modified.is_empty());
}

#[test]
fn test_compute_config_changes_added_groups() {
    let old = vec![Group {
        name: "a".to_string(),
        ..Default::default()
    }];
    let new = vec![
        Group {
            name: "a".to_string(),
            ..Default::default()
        },
        Group {
            name: "b".to_string(),
            ..Default::default()
        },
    ];

    let (added, removed, modified) = compute_config_changes(&old, &new);
    assert_eq!(added, vec!["b"]);
    assert!(removed.is_empty());
    assert!(modified.is_empty());
}

#[test]
fn test_compute_config_changes_removed_groups() {
    let old = vec![
        Group {
            name: "a".to_string(),
            ..Default::default()
        },
        Group {
            name: "b".to_string(),
            ..Default::default()
        },
    ];
    let new = vec![Group {
        name: "a".to_string(),
        ..Default::default()
    }];

    let (added, removed, modified) = compute_config_changes(&old, &new);
    assert!(added.is_empty());
    assert_eq!(removed, vec!["b"]);
    assert!(modified.is_empty());
}

#[test]
fn test_compute_config_changes_modified_patterns() {
    let old = vec![Group {
        name: "a".to_string(),
        patterns: vec!["*.rs".to_string()],
        ..Default::default()
    }];
    let new = vec![Group {
        name: "a".to_string(),
        patterns: vec!["*.go".to_string()],
        ..Default::default()
    }];

    let (added, removed, modified) = compute_config_changes(&old, &new);
    assert!(added.is_empty());
    assert!(removed.is_empty());
    assert_eq!(modified, vec!["a"]);
}

#[test]
fn test_compute_config_changes_modified_depends_on() {
    let old = vec![Group {
        name: "a".to_string(),
        depends_on: vec!["b".to_string()],
        ..Default::default()
    }];
    let new = vec![Group {
        name: "a".to_string(),
        depends_on: vec!["c".to_string()],
        ..Default::default()
    }];

    let (added, removed, modified) = compute_config_changes(&old, &new);
    assert!(added.is_empty());
    assert!(removed.is_empty());
    assert_eq!(modified, vec!["a"]);
}

#[test]
fn test_compute_config_changes_all_operations() {
    let old = vec![
        Group {
            name: "keep".to_string(),
            ..Default::default()
        },
        Group {
            name: "remove".to_string(),
            ..Default::default()
        },
        Group {
            name: "modify".to_string(),
            patterns: vec!["old".to_string()],
            ..Default::default()
        },
    ];
    let new = vec![
        Group {
            name: "keep".to_string(),
            ..Default::default()
        },
        Group {
            name: "add".to_string(),
            ..Default::default()
        },
        Group {
            name: "modify".to_string(),
            patterns: vec!["new".to_string()],
            ..Default::default()
        },
    ];

    let (added, removed, modified) = compute_config_changes(&old, &new);
    assert_eq!(added, vec!["add"]);
    assert_eq!(removed, vec!["remove"]);
    assert_eq!(modified, vec!["modify"]);
}

#[test]
fn test_compute_config_changes_empty_to_groups() {
    let old: Vec<Group> = vec![];
    let new = vec![
        Group {
            name: "a".to_string(),
            ..Default::default()
        },
        Group {
            name: "b".to_string(),
            ..Default::default()
        },
    ];

    let (added, removed, modified) = compute_config_changes(&old, &new);
    assert_eq!(added.len(), 2);
    assert!(added.contains(&"a".to_string()));
    assert!(added.contains(&"b".to_string()));
    assert!(removed.is_empty());
    assert!(modified.is_empty());
}

#[test]
fn test_compute_config_changes_groups_to_empty() {
    let old = vec![
        Group {
            name: "a".to_string(),
            ..Default::default()
        },
        Group {
            name: "b".to_string(),
            ..Default::default()
        },
    ];
    let new: Vec<Group> = vec![];

    let (added, removed, modified) = compute_config_changes(&old, &new);
    assert!(added.is_empty());
    assert_eq!(removed.len(), 2);
    assert!(removed.contains(&"a".to_string()));
    assert!(removed.contains(&"b".to_string()));
    assert!(modified.is_empty());
}

// =========================================================================
// calculate_group_status_from_tasks() tests
// =========================================================================

#[test]
fn test_calculate_group_status_returns_none_when_tasks_running() {
    let tasks = vec![
        ProcessState {
            name: "task1".to_string(),
            status: ProcessStatus::Success,
            ..Default::default()
        },
        ProcessState {
            name: "task2".to_string(),
            status: ProcessStatus::Running,
            ..Default::default()
        },
    ];

    let result = calculate_group_status_from_tasks(&tasks, true);
    assert!(result.is_none());
}

#[test]
fn test_calculate_group_status_ready_when_all_success() {
    let tasks = vec![
        ProcessState {
            name: "task1".to_string(),
            status: ProcessStatus::Success,
            ..Default::default()
        },
        ProcessState {
            name: "task2".to_string(),
            status: ProcessStatus::Success,
            ..Default::default()
        },
    ];

    let result = calculate_group_status_from_tasks(&tasks, false);
    assert_eq!(result, Some(GroupStatus::Ready));
}

#[test]
fn test_calculate_group_status_failed_when_any_failed() {
    let tasks = vec![
        ProcessState {
            name: "task1".to_string(),
            status: ProcessStatus::Success,
            ..Default::default()
        },
        ProcessState {
            name: "task2".to_string(),
            status: ProcessStatus::Failed,
            ..Default::default()
        },
    ];

    let result = calculate_group_status_from_tasks(&tasks, false);
    assert_eq!(result, Some(GroupStatus::Failed));
}

#[test]
fn test_calculate_group_status_ready_with_empty_tasks() {
    let tasks: Vec<ProcessState> = vec![];

    let result = calculate_group_status_from_tasks(&tasks, false);
    assert_eq!(result, Some(GroupStatus::Ready));
}

#[test]
fn test_calculate_group_status_ready_with_pending_and_success() {
    // Pending tasks don't count as failed
    let tasks = vec![
        ProcessState {
            name: "task1".to_string(),
            status: ProcessStatus::Success,
            ..Default::default()
        },
        ProcessState {
            name: "task2".to_string(),
            status: ProcessStatus::Pending,
            ..Default::default()
        },
    ];

    let result = calculate_group_status_from_tasks(&tasks, false);
    assert_eq!(result, Some(GroupStatus::Ready));
}

// =========================================================================
// filter_affected_to_roots() tests
// =========================================================================

#[test]
fn test_filter_roots_single_group_no_deps() {
    let affected = vec!["a".to_string()];
    let get_deps = |_: &str| Vec::new();

    let roots = filter_affected_to_roots(&affected, get_deps);
    assert_eq!(roots, vec!["a"]);
}

#[test]
fn test_filter_roots_independent_groups() {
    let affected = vec!["a".to_string(), "b".to_string()];
    let get_deps = |_: &str| Vec::new();

    let roots = filter_affected_to_roots(&affected, get_deps);
    assert_eq!(roots.len(), 2);
    assert!(roots.contains(&"a".to_string()));
    assert!(roots.contains(&"b".to_string()));
}

#[test]
fn test_filter_roots_dependent_filtered_out() {
    // a depends on b, both affected -> only b is root
    let affected = vec!["a".to_string(), "b".to_string()];
    let get_deps = |g: &str| {
        if g == "a" {
            vec!["b".to_string()]
        } else {
            vec![]
        }
    };

    let roots = filter_affected_to_roots(&affected, get_deps);
    assert_eq!(roots, vec!["b"]);
}

#[test]
fn test_filter_roots_chain_only_first() {
    // a -> b -> c, all affected -> only c is root
    let affected = vec!["a".to_string(), "b".to_string(), "c".to_string()];
    let get_deps = |g: &str| match g {
        "a" => vec!["b".to_string()],
        "b" => vec!["c".to_string()],
        _ => vec![],
    };

    let roots = filter_affected_to_roots(&affected, get_deps);
    assert_eq!(roots, vec!["c"]);
}

#[test]
fn test_filter_roots_diamond_both_middle() {
    // Diamond: a -> b,c -> d. If b,c,d affected, only d is root
    let affected = vec!["b".to_string(), "c".to_string(), "d".to_string()];
    let get_deps = |g: &str| match g {
        "a" => vec!["b".to_string(), "c".to_string()],
        "b" => vec!["d".to_string()],
        "c" => vec!["d".to_string()],
        _ => vec![],
    };

    let roots = filter_affected_to_roots(&affected, get_deps);
    assert_eq!(roots, vec!["d"]);
}

#[test]
fn test_filter_roots_partial_chain() {
    // a -> b -> c, only a and c affected -> both are roots (b not affected)
    let affected = vec!["a".to_string(), "c".to_string()];
    let get_deps = |g: &str| match g {
        "a" => vec!["b".to_string()],
        "b" => vec!["c".to_string()],
        _ => vec![],
    };

    let roots = filter_affected_to_roots(&affected, get_deps);
    // a's dependency (b) is not affected, so a is a root
    // c has no dependencies, so c is a root
    assert_eq!(roots.len(), 2);
    assert!(roots.contains(&"a".to_string()));
    assert!(roots.contains(&"c".to_string()));
}

#[test]
fn test_filter_roots_unaffected_dependency() {
    // a depends on b, but only a is affected -> a is root
    let affected = vec!["a".to_string()];
    let get_deps = |g: &str| {
        if g == "a" {
            vec!["b".to_string()]
        } else {
            vec![]
        }
    };

    let roots = filter_affected_to_roots(&affected, get_deps);
    assert_eq!(roots, vec!["a"]);
}

#[test]
fn test_filter_roots_empty_affected() {
    let affected: Vec<String> = vec![];
    let get_deps = |_: &str| Vec::new();

    let roots = filter_affected_to_roots(&affected, get_deps);
    assert!(roots.is_empty());
}

#[test]
fn a_change_of_any_field_of_a_group_counts() {
    let plain = || Group {
        name: "a".to_string(),
        ..Default::default()
    };
    let mut ignored = plain();
    ignored.ignore = vec!["target".to_string()];
    let mut moved = plain();
    moved.working_dir = Some("web".to_string());
    for changed in [ignored, moved] {
        let (added, removed, modified) = compute_config_changes(&vec![plain()], &vec![changed]);
        assert!(added.is_empty());
        assert!(removed.is_empty());
        assert_eq!(modified, vec!["a"]);
    }
}

#[test]
fn a_cycle_is_blamed_on_the_group_that_closes_it() {
    let group = |name: &str, dep: &str| Group {
        name: name.to_string(),
        depends_on: vec![dep.to_string()],
        ..Default::default()
    };
    let groups = vec![group("x", "a"), group("a", "b"), group("b", "a")];
    match topological_sort(&groups) {
        Err(DaemonError::CyclicDependency(name)) => assert_eq!(name, "a"),
        other => panic!("expected a cycle, got {:?}", other),
    }
}
