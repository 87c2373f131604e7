use zaz::daemon::dependency::DependencyResolver;
use zaz::daemon::state::GroupStatus;

// =========================================================================
// Construction and basic operations
// =========================================================================

#[test]
fn test_new_resolver_is_empty() {
    let resolver = DependencyResolver::new();
    assert!(resolver.get_dependencies("a").is_empty());
    assert!(resolver.get_dependents("a").is_empty());
    assert!(resolver.get_status("a").is_none());
}

#[test]
fn test_add_group_no_deps() {
    let mut resolver = DependencyResolver::new();
    resolver.add_group("a", &[]);

    assert!(resolver.get_dependencies("a").is_empty());
    assert_eq!(resolver.get_status("a"), Some(GroupStatus::Pending));
}

#[test]
fn test_add_group_with_deps() {
    let mut resolver = DependencyResolver::new();
    resolver.add_group("b", &[]);
    resolver.add_group("a", &["b".to_string()]);

    assert_eq!(resolver.get_dependencies("a"), vec!["b".to_string()]);
    assert_eq!(resolver.get_dependents("b"), vec!["a".to_string()]);
}

#[test]
fn test_from_groups() {
    let deps_a = vec!["b".to_string(), "c".to_string()];
    let deps_b = vec!["d".to_string()];
    let deps_c = vec!["d".to_string()];
    let deps_d: Vec<String> = vec![];

    let groups = vec![
        ("a", deps_a.as_slice()),
        ("b", deps_b.as_slice()),
        ("c", deps_c.as_slice()),
        ("d", deps_d.as_slice()),
    ];

    let resolver = DependencyResolver::from_groups(groups);

    assert_eq!(
        resolver.get_dependencies("a"),
        vec!["b".to_string(), "c".to_string()]
    );
    assert_eq!(resolver.get_dependencies("b"), vec!["d".to_string()]);
    assert!(resolver.get_dependents("d").contains(&"b".to_string()));
    assert!(resolver.get_dependents("d").contains(&"c".to_string()));
}

#[test]
fn test_remove_group() {
    let mut resolver = DependencyResolver::new();
    resolver.add_group("b", &[]);
    resolver.add_group("a", &["b".to_string()]);

    resolver.remove_group("a");

    assert!(resolver.get_status("a").is_none());
    assert!(resolver.get_dependents("b").is_empty());
}

#[test]
fn a_removed_group_leaves_no_reference() {
    let mut resolver = DependencyResolver::new();
    resolver.add_group("b", &[]);
    resolver.add_group("c", &[]);
    resolver.add_group("a", &["b".to_string(), "c".to_string(), "b".to_string()]);
    assert!(resolver.mark_waiting("a").is_some());

    resolver.remove_group("b");

    assert!(resolver.get_status("b").is_none());
    assert!(resolver.get_dependents("b").is_empty());
    assert_eq!(resolver.get_dependencies("a"), vec!["c".to_string()]);
    assert_eq!(resolver.get_dependents("c"), vec!["a".to_string()]);
    let waiting = resolver.waiting_for("a").unwrap();
    assert!(!waiting.contains("b"));
    assert!(waiting.contains("c"));
}

// =========================================================================
// Status checks
// =========================================================================

#[test]
fn test_is_ready() {
    let mut resolver = DependencyResolver::new();
    resolver.add_group("a", &[]);

    assert!(!resolver.is_ready("a"));

    resolver.set_status("a", GroupStatus::Ready);
    assert!(resolver.is_ready("a"));
}

#[test]
fn test_is_failed_or_skipped() {
    let mut resolver = DependencyResolver::new();
    resolver.add_group("a", &[]);

    assert!(!resolver.is_failed_or_skipped("a"));

    resolver.set_status("a", GroupStatus::Failed);
    assert!(resolver.is_failed_or_skipped("a"));

    resolver.set_status("a", GroupStatus::Skipped);
    assert!(resolver.is_failed_or_skipped("a"));

    resolver.set_status("a", GroupStatus::Ready);
    assert!(!resolver.is_failed_or_skipped("a"));
}

#[test]
fn test_any_dependency_failed() {
    let mut resolver = DependencyResolver::new();
    resolver.add_group("c", &[]);
    resolver.add_group("b", &[]);
    resolver.add_group("a", &["b".to_string(), "c".to_string()]);

    assert!(!resolver.any_dependency_failed("a"));

    resolver.set_status("b", GroupStatus::Failed);
    assert!(resolver.any_dependency_failed("a"));
}

#[test]
fn test_all_dependencies_ready() {
    let mut resolver = DependencyResolver::new();
    resolver.add_group("c", &[]);
    resolver.add_group("b", &[]);
    resolver.add_group("a", &["b".to_string(), "c".to_string()]);

    assert!(!resolver.all_dependencies_ready("a"));

    resolver.set_status("b", GroupStatus::Ready);
    assert!(!resolver.all_dependencies_ready("a"));

    resolver.set_status("c", GroupStatus::Ready);
    assert!(resolver.all_dependencies_ready("a"));
}

// =========================================================================
// Waiting state
// =========================================================================

#[test]
fn test_mark_waiting_with_unready_deps() {
    let mut resolver = DependencyResolver::new();
    resolver.add_group("b", &[]);
    resolver.add_group("a", &["b".to_string()]);

    let waiting = resolver.mark_waiting("a");

    assert!(waiting.is_some());
    assert!(waiting.unwrap().contains(&"b".to_string()));
    assert!(resolver.is_waiting("a"));
    assert_eq!(resolver.get_status("a"), Some(GroupStatus::Waiting));
}

#[test]
fn test_mark_waiting_with_ready_deps() {
    let mut resolver = DependencyResolver::new();
    resolver.add_group("b", &[]);
    resolver.add_group("a", &["b".to_string()]);
    resolver.set_status("b", GroupStatus::Ready);

    let waiting = resolver.mark_waiting("a");

    assert!(waiting.is_none());
    assert!(!resolver.is_waiting("a"));
}

#[test]
fn test_mark_waiting_no_deps() {
    let mut resolver = DependencyResolver::new();
    resolver.add_group("a", &[]);

    let waiting = resolver.mark_waiting("a");

    assert!(waiting.is_none());
    assert!(!resolver.is_waiting("a"));
}

// =========================================================================
// mark_complete - linear chain
// =========================================================================

#[test]
fn test_mark_complete_triggers_dependent() {
    let mut resolver = DependencyResolver::new();
    resolver.add_group("b", &[]);
    resolver.add_group("a", &["b".to_string()]);

    // a is waiting for b
    resolver.mark_waiting("a");
    assert!(resolver.is_waiting("a"));

    // b completes
    let result = resolver.mark_complete("b");

    assert_eq!(result.ready_to_start, vec!["a".to_string()]);
    assert!(!resolver.is_waiting("a"));
    assert!(resolver.is_ready("b"));
}

#[test]
fn test_mark_complete_chain() {
    // c -> b -> a (a depends on b, b depends on c)
    let mut resolver = DependencyResolver::new();
    resolver.add_group("c", &[]);
    resolver.add_group("b", &["c".to_string()]);
    resolver.add_group("a", &["b".to_string()]);

    resolver.mark_waiting("b");
    resolver.mark_waiting("a");

    // c completes -> b ready
    let result1 = resolver.mark_complete("c");
    assert_eq!(result1.ready_to_start, vec!["b".to_string()]);

    // b completes -> a ready
    let result2 = resolver.mark_complete("b");
    assert_eq!(result2.ready_to_start, vec!["a".to_string()]);
}

#[test]
fn test_mark_complete_no_dependents() {
    let mut resolver = DependencyResolver::new();
    resolver.add_group("a", &[]);

    let result = resolver.mark_complete("a");

    assert!(result.ready_to_start.is_empty());
    assert!(resolver.is_ready("a"));
}

// =========================================================================
// mark_complete - diamond pattern
// =========================================================================

#[test]
fn test_mark_complete_diamond_one_path() {
    // Diamond: a -> b,c -> d
    let mut resolver = DependencyResolver::new();
    resolver.add_group("d", &[]);
    resolver.add_group("b", &["d".to_string()]);
    resolver.add_group("c", &["d".to_string()]);
    resolver.add_group("a", &["b".to_string(), "c".to_string()]);

    resolver.mark_waiting("b");
    resolver.mark_waiting("c");
    resolver.mark_waiting("a");

    // d completes -> b and c ready
    let result = resolver.mark_complete("d");
    assert_eq!(result.ready_to_start.len(), 2);
    assert!(result.ready_to_start.contains(&"b".to_string()));
    assert!(result.ready_to_start.contains(&"c".to_string()));

    // b completes -> a still waiting for c
    let result2 = resolver.mark_complete("b");
    assert!(result2.ready_to_start.is_empty());

    // c completes -> a ready
    let result3 = resolver.mark_complete("c");
    assert_eq!(result3.ready_to_start, vec!["a".to_string()]);
}

// =========================================================================
// mark_failed and cascade_skip
// =========================================================================

#[test]
fn test_mark_failed_cascades_to_dependent() {
    let mut resolver = DependencyResolver::new();
    resolver.add_group("b", &[]);
    resolver.add_group("a", &["b".to_string()]);

    resolver.mark_waiting("a");

    let result = resolver.mark_failed("b");

    assert!(resolver.is_failed_or_skipped("b"));
    assert_eq!(result.to_skip, vec!["a".to_string()]);
    assert_eq!(resolver.get_status("a"), Some(GroupStatus::Skipped));
}

#[test]
fn test_mark_failed_cascades_chain() {
    // c -> b -> a
    let mut resolver = DependencyResolver::new();
    resolver.add_group("c", &[]);
    resolver.add_group("b", &["c".to_string()]);
    resolver.add_group("a", &["b".to_string()]);

    resolver.mark_waiting("b");
    resolver.mark_waiting("a");

    let result = resolver.mark_failed("c");

    // Both b and a should be skipped
    assert_eq!(result.to_skip.len(), 2);
    assert!(result.to_skip.contains(&"b".to_string()));
    assert!(result.to_skip.contains(&"a".to_string()));
    assert_eq!(resolver.get_status("b"), Some(GroupStatus::Skipped));
    assert_eq!(resolver.get_status("a"), Some(GroupStatus::Skipped));
}

#[test]
fn test_mark_failed_diamond_cascade() {
    // Diamond: a -> b,c -> d
    let mut resolver = DependencyResolver::new();
    resolver.add_group("d", &[]);
    resolver.add_group("b", &["d".to_string()]);
    resolver.add_group("c", &["d".to_string()]);
    resolver.add_group("a", &["b".to_string(), "c".to_string()]);

    resolver.mark_waiting("b");
    resolver.mark_waiting("c");
    resolver.mark_waiting("a");

    let result = resolver.mark_failed("d");

    // b, c, and a should all be skipped
    assert_eq!(result.to_skip.len(), 3);
    assert!(result.to_skip.contains(&"b".to_string()));
    assert!(result.to_skip.contains(&"c".to_string()));
    assert!(result.to_skip.contains(&"a".to_string()));
}

#[test]
fn test_mark_failed_partial_diamond() {
    // Diamond: a -> b,c -> d
    // d completes, then b fails
    let mut resolver = DependencyResolver::new();
    resolver.add_group("d", &[]);
    resolver.add_group("b", &["d".to_string()]);
    resolver.add_group("c", &["d".to_string()]);
    resolver.add_group("a", &["b".to_string(), "c".to_string()]);

    resolver.mark_waiting("b");
    resolver.mark_waiting("c");
    resolver.mark_waiting("a");

    // d completes
    resolver.mark_complete("d");

    // b fails - a should NOT be skipped yet (still waiting for c)
    let result = resolver.mark_failed("b");
    assert!(result.to_skip.is_empty());

    // c completes - a should be in needs_skip because b failed
    let result2 = resolver.mark_complete("c");
    // a is not in ready_to_start because b failed
    assert!(result2.ready_to_start.is_empty());
    // a is in needs_skip because b failed
    assert_eq!(result2.needs_skip, vec!["a".to_string()]);
    assert!(resolver.any_dependency_failed("a"));
}

#[test]
fn test_mark_failed_no_waiting_dependents() {
    let mut resolver = DependencyResolver::new();
    resolver.add_group("b", &[]);
    resolver.add_group("a", &["b".to_string()]);
    // Don't mark a as waiting

    let result = resolver.mark_failed("b");

    assert!(result.to_skip.is_empty());
    assert!(resolver.is_failed_or_skipped("b"));
}

// =========================================================================
// compute_initial_state
// =========================================================================

#[test]
fn test_compute_initial_state_no_deps() {
    let mut resolver = DependencyResolver::new();
    resolver.add_group("a", &[]);
    resolver.add_group("b", &[]);

    let ready_to_start = resolver.compute_initial_state();

    // Both groups should start (no dependencies)
    assert!(ready_to_start.contains(&"a".to_string()));
    assert!(ready_to_start.contains(&"b".to_string()));
}

#[test]
fn test_compute_initial_state_with_deps() {
    let mut resolver = DependencyResolver::new();
    resolver.add_group("b", &[]);
    resolver.add_group("a", &["b".to_string()]);

    let ready_to_start = resolver.compute_initial_state();

    // b should start, a is waiting
    assert!(ready_to_start.contains(&"b".to_string()));
    assert!(!ready_to_start.contains(&"a".to_string()));
    assert!(resolver.is_waiting("a"));
}

#[test]
fn test_compute_initial_state_chain() {
    let mut resolver = DependencyResolver::new();
    resolver.add_group("c", &[]);
    resolver.add_group("b", &["c".to_string()]);
    resolver.add_group("a", &["b".to_string()]);

    let ready_to_start = resolver.compute_initial_state();

    // Only c should start
    assert!(ready_to_start.contains(&"c".to_string()));
    assert!(!ready_to_start.contains(&"b".to_string()));
    assert!(!ready_to_start.contains(&"a".to_string()));
    assert!(resolver.is_waiting("b"));
    assert!(resolver.is_waiting("a"));
}

#[test]
fn a_group_with_ready_dependencies_starts_at_once() {
    let mut resolver = DependencyResolver::new();
    resolver.add_group("b", &[]);
    resolver.add_group("a", &["b".to_string()]);
    resolver.add_group("c", &["a".to_string()]);
    resolver.set_status("b", GroupStatus::Ready);

    let ready_to_start = resolver.compute_initial_state();

    assert_eq!(ready_to_start.len(), 2);
    assert!(ready_to_start.contains(&"a".to_string()));
    assert!(ready_to_start.contains(&"b".to_string()));
    assert!(!resolver.is_waiting("a"));
    assert!(resolver.is_waiting("c"));
}

// =========================================================================
// Edge cases
// =========================================================================

#[test]
fn test_nonexistent_group() {
    let resolver = DependencyResolver::new();

    assert!(resolver.get_dependencies("nonexistent").is_empty());
    assert!(resolver.get_dependents("nonexistent").is_empty());
    assert!(resolver.get_status("nonexistent").is_none());
    assert!(!resolver.is_ready("nonexistent"));
    assert!(!resolver.is_failed_or_skipped("nonexistent"));
}

#[test]
fn test_reset_statuses() {
    let mut resolver = DependencyResolver::new();
    resolver.add_group("a", &[]);
    resolver.add_group("b", &["a".to_string()]);

    resolver.set_status("a", GroupStatus::Ready);
    resolver.mark_waiting("b");

    resolver.reset_statuses();

    assert_eq!(resolver.get_status("a"), Some(GroupStatus::Pending));
    assert_eq!(resolver.get_status("b"), Some(GroupStatus::Pending));
    assert!(!resolver.is_waiting("b"));
}

#[test]
fn test_clear_waiting() {
    let mut resolver = DependencyResolver::new();
    resolver.add_group("b", &[]);
    resolver.add_group("a", &["b".to_string()]);
    resolver.mark_waiting("a");

    assert!(resolver.is_waiting("a"));

    resolver.clear_waiting();

    assert!(!resolver.is_waiting("a"));
}

// =========================================================================
// Complex scenarios
// =========================================================================

#[test]
fn test_multiple_dependents_same_dependency() {
    // b and c both depend on a
    let mut resolver = DependencyResolver::new();
    resolver.add_group("a", &[]);
    resolver.add_group("b", &["a".to_string()]);
    resolver.add_group("c", &["a".to_string()]);

    resolver.mark_waiting("b");
    resolver.mark_waiting("c");

    let result = resolver.mark_complete("a");

    assert_eq!(result.ready_to_start.len(), 2);
    assert!(result.ready_to_start.contains(&"b".to_string()));
    assert!(result.ready_to_start.contains(&"c".to_string()));
}

#[test]
fn test_deep_chain_failure() {
    // e -> d -> c -> b -> a
    let mut resolver = DependencyResolver::new();
    resolver.add_group("a", &[]);
    resolver.add_group("b", &["a".to_string()]);
    resolver.add_group("c", &["b".to_string()]);
    resolver.add_group("d", &["c".to_string()]);
    resolver.add_group("e", &["d".to_string()]);

    resolver.mark_waiting("b");
    resolver.mark_waiting("c");
    resolver.mark_waiting("d");
    resolver.mark_waiting("e");

    let result = resolver.mark_failed("a");

    assert_eq!(result.to_skip.len(), 4);
    for g in &["b", "c", "d", "e"] {
        assert!(
            result.to_skip.contains(&g.to_string()),
            "{} should be skipped",
            g
        );
        assert_eq!(
            resolver.get_status(g),
            Some(GroupStatus::Skipped),
            "{} should have Skipped status",
            g
        );
    }
}

#[test]
fn a_group_waits_for_what_is_not_ready_and_nothing_else() {
    let mut resolver = DependencyResolver::new();
    resolver.add_group("b", &[]);
    resolver.add_group("c", &[]);
    resolver.add_group("a", &["b".to_string(), "c".to_string()]);
    resolver.set_status("b", GroupStatus::Ready);

    let waiting = resolver.mark_waiting("a").unwrap();
    assert_eq!(waiting.len(), 1);
    assert!(waiting.contains("c"));
    assert_eq!(resolver.waiting_for("a").unwrap().len(), 1);
    assert!(resolver.has_waiting_dependents("c"));
    assert!(!resolver.has_waiting_dependents("b"));
}

#[test]
fn a_skipped_group_takes_its_waiting_dependents_along() {
    let mut resolver = DependencyResolver::new();
    resolver.add_group("a", &[]);
    resolver.add_group("b", &["a".to_string()]);
    resolver.mark_waiting("b");

    let result = resolver.mark_skipped("a");
    assert_eq!(result.to_skip, vec!["b".to_string()]);
    assert_eq!(resolver.get_status("a"), Some(GroupStatus::Skipped));
    assert_eq!(resolver.get_status("b"), Some(GroupStatus::Skipped));
}

#[test]
fn a_rerun_starts_from_pending() {
    let mut resolver = DependencyResolver::new();
    resolver.add_group("a", &[]);
    resolver.mark_failed("a");
    resolver.reset_for_rerun();
    assert_eq!(resolver.get_status("a"), Some(GroupStatus::Pending));
}
