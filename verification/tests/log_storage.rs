use zaz::daemon::log_storage::{LogQuery, LogQueryResult, LogStorageStats};

#[test]
fn test_log_query_builder() {
    let query = LogQuery::process("web")
        .with_offset(10)
        .with_limit(50)
        .with_search("error");

    assert_eq!(query.process, Some("web".to_string()));
    assert_eq!(query.offset, Some(10));
    assert_eq!(query.limit, Some(50));
    assert_eq!(query.search, Some("error".to_string()));
}

#[test]
fn test_log_query_all() {
    let query = LogQuery::all();
    assert!(query.is_all_processes());
    assert_eq!(query.effective_process(), "*");
}

#[test]
fn test_log_query_default_is_all() {
    let query = LogQuery::default();
    assert!(query.is_all_processes());
}

#[test]
fn test_log_query_result_empty() {
    let result = LogQueryResult::empty();
    assert!(result.logs.is_empty());
    assert_eq!(result.total_count, 0);
    assert!(!result.has_more);
    assert_eq!(result.offset, 0);
}

#[test]
fn query_builders_set_one_field_each() {
    let query = LogQuery::all().with_since(5).with_until(7).with_group("g");
    assert_eq!(query.since, Some(5));
    assert_eq!(query.until, Some(7));
    assert_eq!(query.group.as_deref(), Some("g"));
    assert_eq!(query.limit, None);
    assert!(!LogQuery::process("a").is_all_processes());
    assert_eq!(LogQuery::process("a").effective_process(), "a");
}

#[test]
fn default_stats_are_empty() {
    let stats = LogStorageStats::default();
    assert_eq!(stats.total_lines, 0);
    assert_eq!(stats.oldest_timestamp, None);
    assert_eq!(stats.memory_limit, None);
}
