use zaz::daemon::api::{LogLine, LogSource, OutputKind};
use zaz::daemon::log_storage::{
    LogQuery, LogQueryResult, LogStorage, LogStorageError, LogStorageStats,
};
use zaz::daemon::log_store::{is_shown, retention_due, LogStore};

fn make_log(process: &str, content: &str, timestamp: u64) -> LogLine {
    LogLine {
        process: process.to_string(),
        group: None,
        content: content.to_string(),
        timestamp,
        source: LogSource::Process,
        output_kind: OutputKind::Combined,
    }
}

#[test]
fn test_push_and_get() {
    let mut store = LogStore::new();

    store.push(make_log("task1", "line 1", 100)).unwrap();
    store.push(make_log("task1", "line 2", 200)).unwrap();

    let logs = store.get("task1", None).unwrap();
    assert_eq!(logs.len(), 2);
    assert_eq!(logs[0].content, "line 1");
    assert_eq!(logs[1].content, "line 2");
}

#[test]
fn test_get_nonexistent_process() {
    let store = LogStore::new();
    let logs = store.get("nonexistent", None).unwrap();
    assert!(logs.is_empty());
}

#[test]
fn test_get_with_limit() {
    let mut store = LogStore::new();

    for i in 0..10 {
        store
            .push(make_log("task1", &format!("line {}", i), i as u64 * 100))
            .unwrap();
    }

    let logs = store.get("task1", Some(3)).unwrap();
    assert_eq!(logs.len(), 3);
    // Should get the LAST 3 lines
    assert_eq!(logs[0].content, "line 7");
    assert_eq!(logs[1].content, "line 8");
    assert_eq!(logs[2].content, "line 9");
}

#[test]
fn test_get_all_sorted_by_timestamp() {
    let mut store = LogStore::new();

    // Push logs out of timestamp order
    store.push(make_log("task1", "task1 line 1", 300)).unwrap();
    store.push(make_log("task2", "task2 line 1", 100)).unwrap();
    store.push(make_log("task1", "task1 line 2", 400)).unwrap();
    store.push(make_log("task2", "task2 line 2", 200)).unwrap();

    let logs = store.get("*", None).unwrap();
    assert_eq!(logs.len(), 4);

    // Should be sorted by timestamp
    assert_eq!(logs[0].timestamp, 100);
    assert_eq!(logs[0].content, "task2 line 1");

    assert_eq!(logs[1].timestamp, 200);
    assert_eq!(logs[1].content, "task2 line 2");

    assert_eq!(logs[2].timestamp, 300);
    assert_eq!(logs[2].content, "task1 line 1");

    assert_eq!(logs[3].timestamp, 400);
    assert_eq!(logs[3].content, "task1 line 2");
}

#[test]
fn test_max_lines_enforced() {
    let mut store = LogStore::new().with_max_lines_per_process(5);

    for i in 0..10 {
        store
            .push(make_log("task1", &format!("line {}", i), i as u64 * 100))
            .unwrap();
    }

    let logs = store.get("task1", None).unwrap();
    assert_eq!(logs.len(), 5);
    // Should keep the most recent 5
    assert_eq!(logs[0].content, "line 5");
    assert_eq!(logs[4].content, "line 9");
}

#[test]
fn test_drain_moves_channel_logs_to_buffer() {
    let mut store = LogStore::new();

    // Send logs via channel (simulating spawned task)
    store.submit(make_log("task1", "async line 1", 100));
    store.submit(make_log("task1", "async line 2", 200));

    // Logs should NOT be visible yet
    assert!(store.get("task1", None).unwrap().is_empty());

    // Drain the channel
    store.drain().unwrap();

    // Now logs should be visible
    let logs = store.get("task1", None).unwrap();
    assert_eq!(logs.len(), 2);
    assert_eq!(logs[0].content, "async line 1");
    assert_eq!(logs[1].content, "async line 2");
}

#[test]
fn test_drain_before_get_ensures_fresh_logs() {
    let mut store = LogStore::new();

    // Simulate task sending logs
    store.submit(make_log("task1", "line 1", 100));

    // Without drain, logs are not visible
    assert!(store.get("task1", None).unwrap().is_empty());

    // Drain and get
    store.drain().unwrap();
    assert_eq!(store.get("task1", None).unwrap().len(), 1);

    // Send more logs
    store.submit(make_log("task1", "line 2", 200));

    // Still only 1 visible (haven't drained)
    assert_eq!(store.get("task1", None).unwrap().len(), 1);

    // Drain again
    store.drain().unwrap();
    assert_eq!(store.get("task1", None).unwrap().len(), 2);
}

#[test]
fn test_interleaved_push_and_channel() {
    let mut store = LogStore::new();

    // Direct push
    store.push(make_log("task1", "direct 1", 100)).unwrap();

    // Channel send
    store.submit(make_log("task1", "channel 1", 200));

    // Direct push again
    store.push(make_log("task1", "direct 2", 300)).unwrap();

    // Only direct pushes visible
    let logs = store.get("task1", None).unwrap();
    assert_eq!(logs.len(), 2);

    // Drain
    store.drain().unwrap();

    // Now all 3 visible
    let logs = store.get("task1", None).unwrap();
    assert_eq!(logs.len(), 3);
}

#[test]
fn test_multiple_processes_via_channel() {
    let mut store = LogStore::new();

    // Simulate multiple tasks running concurrently
    store.submit(make_log("task1", "t1 line", 100));
    store.submit(make_log("task2", "t2 line", 150));
    store.submit(make_log("task3", "t3 line", 120));

    store.drain().unwrap();

    // Each process has its logs
    assert_eq!(store.get("task1", None).unwrap().len(), 1);
    assert_eq!(store.get("task2", None).unwrap().len(), 1);
    assert_eq!(store.get("task3", None).unwrap().len(), 1);

    // All logs sorted by timestamp
    let all = store.get("*", None).unwrap();
    assert_eq!(all.len(), 3);
    assert_eq!(all[0].timestamp, 100); // task1
    assert_eq!(all[1].timestamp, 120); // task3
    assert_eq!(all[2].timestamp, 150); // task2
}

#[test]
fn test_broadcast_subscriber_receives_logs() {
    let mut store = LogStore::new();

    // Push a log
    store
        .push(make_log("task1", "broadcast test", 100))
        .unwrap();

    // Subscriber should receive it
    let received = store.take_outgoing().remove(0);
    assert_eq!(received.content, "broadcast test");
}

#[test]
fn test_channel_logs_broadcast_on_drain() {
    let mut store = LogStore::new();

    // Send via channel
    store.submit(make_log("task1", "channel broadcast", 100));

    // Not broadcast yet (still in channel)
    assert!(store.take_outgoing().is_empty());

    // Drain moves to buffer AND broadcasts
    store.drain().unwrap();

    // Now subscriber should have it
    let received = store.take_outgoing().remove(0);
    assert_eq!(received.content, "channel broadcast");
}

#[test]
fn test_query_pagination() {
    let mut store = LogStore::new();

    // Add 20 logs
    for i in 0..20 {
        store
            .push(make_log("task1", &format!("line {}", i), i as u64 * 100))
            .unwrap();
    }

    // Query without pagination
    let result = store.query(LogQuery::process("task1")).unwrap();
    assert_eq!(result.logs.len(), 20);
    assert_eq!(result.total_count, 20);
    assert!(!result.has_more);
    assert_eq!(result.offset, 0);

    // Query with limit
    let result = store
        .query(LogQuery::process("task1").with_limit(5))
        .unwrap();
    assert_eq!(result.logs.len(), 5);
    assert_eq!(result.total_count, 20);
    assert!(result.has_more);
    assert_eq!(result.offset, 0);
    assert_eq!(result.logs[0].content, "line 0");

    // Query with offset and limit
    let result = store
        .query(LogQuery::process("task1").with_offset(10).with_limit(5))
        .unwrap();
    assert_eq!(result.logs.len(), 5);
    assert_eq!(result.total_count, 20);
    assert!(result.has_more);
    assert_eq!(result.offset, 10);
    assert_eq!(result.logs[0].content, "line 10");

    // Query at the end
    let result = store
        .query(LogQuery::process("task1").with_offset(15).with_limit(10))
        .unwrap();
    assert_eq!(result.logs.len(), 5); // Only 5 remaining
    assert_eq!(result.total_count, 20);
    assert!(!result.has_more);
    assert_eq!(result.offset, 15);
}

#[test]
fn test_query_search() {
    let mut store = LogStore::new();

    store.push(make_log("task1", "INFO: started", 100)).unwrap();
    store
        .push(make_log("task1", "ERROR: something failed", 200))
        .unwrap();
    store
        .push(make_log("task1", "INFO: processing", 300))
        .unwrap();
    store
        .push(make_log("task1", "ERROR: another failure", 400))
        .unwrap();
    store.push(make_log("task1", "INFO: done", 500)).unwrap();

    // Search for ERROR (case-insensitive)
    let result = store
        .query(LogQuery::process("task1").with_search("error"))
        .unwrap();
    assert_eq!(result.logs.len(), 2);
    assert_eq!(result.total_count, 2);
    assert!(result.logs[0].content.contains("ERROR"));
    assert!(result.logs[1].content.contains("ERROR"));

    // Search with pagination
    let result = store
        .query(LogQuery::process("task1").with_search("INFO").with_limit(2))
        .unwrap();
    assert_eq!(result.logs.len(), 2);
    assert_eq!(result.total_count, 3);
    assert!(result.has_more);
}

#[test]
fn test_query_all_processes() {
    let mut store = LogStore::new();

    store.push(make_log("task1", "task1 line", 100)).unwrap();
    store.push(make_log("task2", "task2 line", 200)).unwrap();
    store.push(make_log("task3", "task3 line", 150)).unwrap();

    // Query all processes
    let result = store.query(LogQuery::all()).unwrap();
    assert_eq!(result.logs.len(), 3);

    // Should be sorted by timestamp
    assert_eq!(result.logs[0].timestamp, 100);
    assert_eq!(result.logs[1].timestamp, 150);
    assert_eq!(result.logs[2].timestamp, 200);

    // Pagination on all
    let result = store.query(LogQuery::all().with_limit(2)).unwrap();
    assert_eq!(result.logs.len(), 2);
    assert!(result.has_more);
}

#[test]
fn test_memory_eviction() {
    // Create store with tiny memory limit
    let mut store = LogStore::new().with_memory_limit(1000); // ~1KB limit

    // Add logs until eviction kicks in
    for i in 0..100 {
        store
            .push(make_log(
                "task1",
                &format!("a longer line to take up more memory {}", i),
                i as u64 * 100,
            ))
            .unwrap();
    }

    // Should have evicted some logs due to memory pressure
    let stats = store.stats().unwrap();
    assert!(stats.memory_bytes < 1000); // Under the target (80% of limit = 800)

    // Logs should still be retrievable
    let result = store.query(LogQuery::process("task1")).unwrap();
    assert!(result.total_count < 100); // Some were evicted
    assert!(result.total_count > 0); // But not all
}

#[test]
fn test_max_lines_per_process_enforcement() {
    let mut store = LogStore::new();
    store.set_max_lines_per_process(10);

    // Add 20 logs
    for i in 0..20 {
        store
            .push(make_log("task1", &format!("line {}", i), i as u64 * 100))
            .unwrap();
    }

    // Should only have 10
    let result = store.query(LogQuery::process("task1")).unwrap();
    assert_eq!(result.total_count, 10);

    // Should have the most recent 10 (lines 10-19)
    assert_eq!(result.logs[0].content, "line 10");
    assert_eq!(result.logs[9].content, "line 19");
}

#[test]
fn test_push_batch_makes_lines_visible() {
    let mut store = LogStore::new();
    let batch = vec![
        make_log("task1", "batch 1", 100),
        make_log("task1", "batch 2", 200),
        make_log("task2", "other", 150),
    ];

    store.push_batch(batch).unwrap();

    let result = store.query(LogQuery::all()).unwrap();
    assert_eq!(result.total_count, 3);
    assert_eq!(result.logs[0].timestamp, 100);
    assert_eq!(result.logs[1].timestamp, 150);
    assert_eq!(result.logs[2].timestamp, 200);
}

#[test]
fn test_flush_is_noop_for_memory_backend() {
    let mut store = LogStore::new();
    store.push(make_log("task1", "before flush", 100)).unwrap();

    store.flush().unwrap();

    let logs = store.get("task1", None).unwrap();
    assert_eq!(logs.len(), 1);
    assert_eq!(logs[0].content, "before flush");
}

#[test]
fn test_flush_now_is_noop_for_memory_backend() {
    let mut store = LogStore::new();
    store
        .push(make_log("task1", "before flush_now", 100))
        .unwrap();

    store.flush_now().unwrap();

    let logs = store.get("task1", None).unwrap();
    assert_eq!(logs.len(), 1);
    assert_eq!(logs[0].content, "before flush_now");
}

#[test]
fn test_enforce_retention_is_noop_for_memory_backend() {
    let mut store = LogStore::new();
    for i in 0..5 {
        store
            .push(make_log("task1", &format!("line {}", i), i as u64 * 100))
            .unwrap();
    }
    let before = store.query(LogQuery::all()).unwrap().total_count;

    store.enforce_retention().unwrap();

    let after = store.query(LogQuery::all()).unwrap().total_count;
    assert_eq!(before, after);
}

#[test]
fn test_drain_and_flush_now_visibility() {
    let mut store = LogStore::new();

    store.submit(make_log("task1", "shutdown line 1", 100));
    store.submit(make_log("task1", "shutdown line 2", 200));

    store.drain_and_flush_now().unwrap();

    let logs = store.get("task1", None).unwrap();
    assert_eq!(logs.len(), 2);
    assert_eq!(logs[0].content, "shutdown line 1");
    assert_eq!(logs[1].content, "shutdown line 2");
}

#[test]
fn hybrid_get_serves_from_hot_buffer() {
    let mut store = LogStore::new();
    store.push(make_log("task1", "one", 100)).unwrap();
    store.push(make_log("task1", "two", 200)).unwrap();
    store.push(make_log("task1", "three", 300)).unwrap();

    let logs = store.get("task1", Some(2)).unwrap();
    assert_eq!(logs.len(), 2);
    assert_eq!(logs[0].content, "two");
    assert_eq!(logs[1].content, "three");
}

#[test]
fn hybrid_query_routes_to_sqlite() {
    // The buffers are empty, so that any lines must come from the database.
    let store = LogStore::new();
    let mut logs = Vec::new();
    for i in 0..5 {
        logs.push(make_log("task1", &format!("line {i}"), i as u64 * 100));
    }
    let persisted = LogQueryResult {
        logs,
        total_count: 5,
        has_more: false,
        offset: 0,
    };

    let result = store
        .query_with(LogQuery::process("task1"), Some(Ok(persisted)))
        .unwrap();
    assert_eq!(result.total_count, 5);
    assert_eq!(result.logs.len(), 5);
    assert_eq!(result.logs[0].content, "line 0");
    assert_eq!(result.logs[4].content, "line 4");
}

#[test]
fn degraded_mode_query_failure_keeps_hot_buffer_get_serving() {
    let mut store = LogStore::new();
    store.push(make_log("task1", "alpha", 100)).unwrap();
    store.push(make_log("task1", "beta", 200)).unwrap();

    let failed = LogStorageError::Query("no such table: log_entries".to_string());
    let err = store
        .query_with(LogQuery::process("task1"), Some(Err(failed)))
        .unwrap_err();
    assert_eq!(err.message(), "no such table: log_entries");
    assert!(matches!(err, LogStorageError::Query(_)));

    let contents = |logs: Vec<LogLine>| -> Vec<String> {
        logs.into_iter().map(|l| l.content).collect()
    };
    assert_eq!(contents(store.get("task1", None).unwrap()), vec!["alpha", "beta"]);

    store.push(make_log("task1", "gamma", 300)).unwrap();
    assert_eq!(contents(store.take_outgoing()), vec!["alpha", "beta", "gamma"]);

    // Without a database the buffers answer.
    let result = store.query_with(LogQuery::process("task1"), None).unwrap();
    assert_eq!(contents(result.logs), vec!["alpha", "beta", "gamma"]);
}

#[test]
fn hybrid_broadcast_delivers_every_line() {
    let mut store = LogStore::new();

    store.push(make_log("task1", "alpha", 100)).unwrap();
    store.push(make_log("task1", "beta", 200)).unwrap();
    store.push(make_log("task1", "gamma", 300)).unwrap();

    let received: Vec<String> = store.take_outgoing().into_iter().map(|l| l.content).collect();
    assert_eq!(received, vec!["alpha", "beta", "gamma"]);
    assert!(store.take_outgoing().is_empty());
}

#[test]
fn hybrid_stats_combine_persistent_aggregates_with_memory_pressure() {
    let mut store = LogStore::new();
    store.push(make_log("task1", "a", 100)).unwrap();

    let mut persisted = LogStorageStats::default();
    persisted.total_lines = 3;
    persisted.process_count = 2;
    persisted.oldest_timestamp = Some(100);
    persisted.newest_timestamp = Some(300);
    let stats = store.stats_with(Some(Ok(persisted))).unwrap();
    assert_eq!(stats.total_lines, 3);
    assert_eq!(stats.process_count, 2);
    assert_eq!(stats.oldest_timestamp, Some(100));
    assert_eq!(stats.newest_timestamp, Some(300));
    // Memory-side fields come from the hot buffer.
    assert!(stats.memory_bytes > 0);
    assert_eq!(stats.memory_limit, Some(100 * 1024 * 1024));
    assert_eq!(stats.max_lines_per_process, 100_000);

    let failed = LogStorageError::Query("aggregate stats".to_string());
    let err = store.stats_with(Some(Err(failed))).unwrap_err();
    assert_eq!(err.message(), "aggregate stats");
    let alone = store.stats_with(None).unwrap();
    assert_eq!(alone.total_lines, 1);
    assert_eq!(alone.process_count, 1);
}

#[test]
fn retention_runs_first_and_then_once_per_cadence() {
    assert!(retention_due(true, None, 60_000));
    assert!(!retention_due(true, Some(59_999), 60_000));
    assert!(retention_due(true, Some(60_000), 60_000));
    assert!(!retention_due(false, None, 60_000));
    assert!(!retention_due(false, Some(120_000), 60_000));
}

#[test]
fn clear_forgets_lines_and_clear_process_only_those_of_one() {
    let mut store = LogStore::new();
    store.push(make_log("task1", "a", 100)).unwrap();
    store.push(make_log("task2", "b", 200)).unwrap();
    store.push(make_log("task1", "c", 300)).unwrap();

    store.clear_process("task1").unwrap();
    assert!(store.get("task1", None).unwrap().is_empty());
    let remaining = store.query(LogQuery::all()).unwrap();
    assert_eq!(remaining.total_count, 1);
    assert_eq!(remaining.logs[0].process, "task2");

    store.clear().unwrap();
    assert_eq!(store.query(LogQuery::all()).unwrap().total_count, 0);
    assert_eq!(store.stats().unwrap().memory_bytes, 0);
}

#[test]
fn lines_of_one_time_keep_their_order() {
    let mut store = LogStore::new();
    store.push(make_log("task1", "first", 5)).unwrap();
    store.push(make_log("task1", "second", 5)).unwrap();
    store.push(make_log("task1", "earlier", 4)).unwrap();
    let contents: Vec<String> =
        store.get("*", None).unwrap().into_iter().map(|l| l.content).collect();
    assert_eq!(contents, vec!["earlier", "first", "second"]);
}

#[test]
fn a_search_ignores_letter_case_in_every_script() {
    let mut store = LogStore::new();
    store.push(make_log("task1", "\u{c4}RGER", 1)).unwrap();
    let found = store
        .query(LogQuery::process("task1").with_search("\u{e4}rger"))
        .unwrap();
    assert_eq!(found.total_count, 1);
}

#[test]
fn pages_join_to_the_whole() {
    let mut store = LogStore::new();
    for i in 0..7 {
        store.push(make_log("task1", &format!("{i}"), i)).unwrap();
    }
    let mut joined = Vec::new();
    let mut offset: usize = 0;
    loop {
        let page = store
            .query(LogQuery::process("task1").with_offset(offset).with_limit(3))
            .unwrap();
        offset += page.logs.len();
        joined.extend(page.logs.into_iter().map(|l| l.content));
        if !page.has_more {
            break;
        }
    }
    assert_eq!(joined, vec!["0", "1", "2", "3", "4", "5", "6"]);
}

#[test]
fn queries_bound_by_time_are_inclusive() {
    let mut store = LogStore::new();
    for i in 0..5 {
        store.push(make_log("task1", &format!("{i}"), i * 100)).unwrap();
    }
    let found = store
        .query(LogQuery::all().with_since(100).with_until(300))
        .unwrap();
    assert_eq!(found.total_count, 3);
    assert_eq!(found.logs[0].content, "1");
    assert_eq!(found.logs[2].content, "3");
}

#[test]
fn groups_narrow_a_query() {
    let mut store = LogStore::new();
    store.push(make_log("task1", "a", 1).with_group("web")).unwrap();
    store.push(make_log("task1", "b", 2)).unwrap();
    let found = store.query(LogQuery::all().with_group("web")).unwrap();
    assert_eq!(found.total_count, 1);
    assert_eq!(found.logs[0].content, "a");
}

#[test]
fn memory_is_given_up_down_to_four_fifths_of_the_limit() {
    let one = LogStore::estimate_log_size(&make_log("p", "0123456789", 0));
    let mut store = LogStore::new().with_memory_limit(one * 10);
    for i in 0..9 {
        store.push(make_log("p", "0123456789", i)).unwrap();
    }
    // Nine tenths of the limit are no more than nine tenths.
    assert_eq!(store.stats().unwrap().memory_bytes, one * 9);
    store.push(make_log("p", "0123456789", 9)).unwrap();
    assert_eq!(store.stats().unwrap().memory_bytes, one * 8);
    assert_eq!(store.get("p", None).unwrap()[0].timestamp, 2);
}

#[test]
fn a_smaller_limit_trims_what_is_there() {
    let mut store = LogStore::new();
    for i in 0..6 {
        store.push(make_log("p", &format!("{i}"), i)).unwrap();
    }
    assert_eq!(store.set_max_lines_per_process(2), 100_000);
    let left = store.get("p", None).unwrap();
    assert_eq!(left.len(), 2);
    assert_eq!(left[0].content, "4");
    assert_eq!(store.max_lines_per_process(), 2);
    assert_eq!(store.memory_limit(), Some(100 * 1024 * 1024));
    assert_eq!(store.set_memory_limit(7), Some(100 * 1024 * 1024));
    assert_eq!(store.memory_limit(), Some(7));
    assert!(store.get("p", None).unwrap().is_empty());
}

#[test]
fn only_what_processes_say_is_shown() {
    assert!(is_shown(&LogLine::process("web", "hello")));
    assert!(is_shown(&LogLine::stderr("web", "oops")));
    assert!(!is_shown(&LogLine::daemon("web", "starting")));
}

fn contents(lines: &[LogLine]) -> Vec<String> {
    lines.iter().map(|l| l.content.clone()).collect()
}

#[test]
fn lines_of_one_process_come_by_time() {
    let mut store = LogStore::new();
    store.push(make_log("p", "x", 300)).unwrap();
    store.push(make_log("p", "y", 100)).unwrap();
    store.push(make_log("p", "z", 300)).unwrap();
    assert_eq!(contents(&store.get("p", None).unwrap()), ["y", "x", "z"]);
    assert_eq!(contents(&store.get("p", Some(2)).unwrap()), ["x", "z"]);
    let page = store.query(LogQuery::process("p").with_limit(1)).unwrap();
    assert_eq!(contents(&page.logs), ["y"]);
}

#[test]
fn a_process_without_lines_is_not_counted() {
    let mut store = LogStore::new().with_max_lines_per_process(0);
    store.push(LogLine::process("p", "x")).unwrap();
    let stats = store.stats().unwrap();
    assert_eq!(stats.total_lines, 0);
    assert_eq!(stats.process_count, 0);
    assert_eq!(stats.memory_bytes, 0);
    assert_eq!(stats.oldest_timestamp, None);
    assert_eq!(stats.newest_timestamp, None);
    store.set_max_lines_per_process(1);
    store.push(LogLine::process("q", "y")).unwrap();
    assert_eq!(store.stats().unwrap().process_count, 1);
}

#[test]
fn pages_over_all_processes_join() {
    let mut store = LogStore::new();
    for i in 0..7 {
        for process in ["a", "b", "c"] {
            store
                .push(make_log(process, &format!("{process}{i}"), i / 3))
                .unwrap();
        }
    }
    let all = store.query(LogQuery::all()).unwrap();
    assert_eq!(all.logs.len(), 21);
    let mut joined = vec![];
    for offset in [0, 4, 8, 12, 16, 20] {
        let page = store
            .query(LogQuery::all().with_offset(offset).with_limit(4))
            .unwrap();
        assert_eq!(page.total_count, 21);
        assert_eq!(page.offset, offset);
        assert_eq!(page.has_more, offset < 20);
        joined.extend(contents(&page.logs));
    }
    assert_eq!(joined, contents(&all.logs));
}
