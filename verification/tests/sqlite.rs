use rusqlite::types::Value;
use rusqlite::Connection;
use zaz::daemon::api::{LogLine, LogSource, OutputKind};
use zaz::daemon::log_storage::{LogQuery, LogQueryResult, LogStorageError};
use zaz::daemon::sqlite::{
    bound_limit, bound_offset, build_where, check_journal_mode, checkpoint_on_shutdown,
    count_statement, db_path_for_config, db_path_in_base, excess_rows, latest_statement,
    log_line_to_row, logical_data_bytes, migrate, output_kind_to_str, page_result,
    parse_output_kind, parse_source, persisted_stats, prune_again, row_to_log_line,
    select_statement, source_to_str, state_dir_base, RetentionPolicy, Row, SqlValue,
    COUNT_BY_PROCESS, CURRENT_SCHEMA_VERSION, DELETE_ALL, DELETE_EXCESS, DELETE_OLDEST,
    DELETE_PROCESS, INSERT_ROW, RETENTION_CHUNK, SCHEMA_V1, SELECT_STATS,
};

fn line(timestamp: u64, process: &str, group: Option<&str>, content: &str) -> LogLine {
    LogLine {
        timestamp,
        process: process.to_string(),
        group: group.map(|g| g.to_string()),
        content: content.to_string(),
        source: LogSource::Process,
        output_kind: OutputKind::Combined,
    }
}

fn user_version(conn: &Connection) -> i32 {
    conn.pragma_query_value(None, "user_version", |row| row.get(0))
        .expect("read user_version")
}

fn journal_mode(conn: &Connection) -> String {
    conn.pragma_query_value(None, "journal_mode", |row| row.get(0))
        .expect("read journal_mode")
}

fn count_schema_objects(conn: &Connection, kind: &str, name: &str) -> i64 {
    conn.query_row(
        "SELECT COUNT(*) FROM sqlite_master WHERE type = ?1 AND name = ?2",
        (kind, name),
        |row| row.get(0),
    )
    .expect("query sqlite_master")
}

fn bring_up_to_date(conn: &Connection) {
    for version in migrate(user_version(conn)).expect("migrate") {
        assert_eq!(version, 1);
        conn.execute_batch(SCHEMA_V1).expect("schema");
    }
}

fn push_batch(conn: &Connection, lines: &[LogLine]) {
    for log in lines {
        let row = log_line_to_row(log);
        conn.execute(
            INSERT_ROW,
            (
                row.timestamp_ms,
                row.process,
                row.group_name,
                row.source,
                row.output_kind,
                row.content,
            ),
        )
        .expect("insert");
    }
}

fn open(lines: Vec<LogLine>) -> Connection {
    let conn = Connection::open_in_memory().expect("open in-memory");
    bring_up_to_date(&conn);
    push_batch(&conn, &lines);
    conn
}

fn values(bound: Vec<SqlValue>) -> Vec<Value> {
    bound
        .into_iter()
        .map(|v| match v {
            SqlValue::Integer(n) => Value::Integer(n),
            SqlValue::Text(s) => Value::Text(s),
        })
        .collect()
}

fn select(conn: &Connection, statement: &str, values: Vec<Value>) -> Vec<LogLine> {
    let mut stmt = conn.prepare(statement).expect("prepare");
    let rows = stmt
        .query_map(rusqlite::params_from_iter(values.iter()), |row| {
            Ok(Row {
                timestamp_ms: row.get(0)?,
                process: row.get(1)?,
                group_name: row.get(2)?,
                source: row.get(3)?,
                output_kind: row.get(4)?,
                content: row.get(5)?,
            })
        })
        .expect("select");
    rows.map(|row| row_to_log_line(row.expect("row")).expect("line"))
        .collect()
}

fn get(conn: &Connection, name: &str, limit: Option<usize>) -> Vec<LogLine> {
    let (statement, bound) = latest_statement(name, limit);
    select(conn, &statement, values(bound))
}

fn query(conn: &Connection, query: LogQuery) -> LogQueryResult {
    let (filter, bound) = build_where(&query);
    let mut values = values(bound);
    let total: i64 = conn
        .query_row(
            &count_statement(&filter),
            rusqlite::params_from_iter(values.iter()),
            |row| row.get(0),
        )
        .expect("count");
    let statement = select_statement(&filter, values.len());
    values.push(Value::Integer(bound_limit(query.limit)));
    values.push(Value::Integer(bound_offset(query.offset)));
    page_result(select(conn, &statement, values), total, query.offset)
}

fn row_count(conn: &Connection) -> i64 {
    conn.query_row("SELECT COUNT(*) FROM log_entries", (), |row| row.get(0))
        .expect("count rows")
}

fn process_row_count(conn: &Connection, process: &str) -> i64 {
    conn.query_row(
        "SELECT COUNT(*) FROM log_entries WHERE process = ?1",
        (process,),
        |row| row.get(0),
    )
    .expect("count rows")
}

fn read_pragma_int(conn: &Connection, name: &str) -> i64 {
    conn.pragma_query_value(None, name, |row| row.get(0))
        .expect("read pragma")
}

fn data_bytes(conn: &Connection) -> i64 {
    logical_data_bytes(
        read_pragma_int(conn, "page_count"),
        read_pragma_int(conn, "freelist_count"),
        read_pragma_int(conn, "page_size"),
    )
}

fn enforce_retention(conn: &Connection, policy: &RetentionPolicy) {
    let counts: Vec<(String, i64)> = conn
        .prepare(COUNT_BY_PROCESS)
        .expect("prepare")
        .query_map((), |row| Ok((row.get(0)?, row.get(1)?)))
        .expect("scan")
        .map(|row| row.expect("row"))
        .collect();
    for (process, count) in counts {
        if let Some(excess) = excess_rows(count, policy.max_lines_per_process) {
            conn.execute(DELETE_EXCESS, (process, excess))
                .expect("delete excess");
        }
    }
    let page_size = read_pragma_int(conn, "page_size");
    let mut deleted = None;
    while prune_again(page_size, data_bytes(conn), policy.max_size_bytes, deleted) {
        let rows = conn
            .execute(DELETE_OLDEST, (RETENTION_CHUNK,))
            .expect("delete oldest");
        deleted = Some(rows);
    }
}

#[test]
fn push_batch_inserts_rows_and_round_trips_columns() {
    let conn = open(vec![
        LogLine {
            timestamp: 100,
            process: "web".into(),
            group: Some("backend".into()),
            content: "first".into(),
            source: LogSource::Process,
            output_kind: OutputKind::Stdout,
        },
        LogLine {
            timestamp: 200,
            process: "web".into(),
            group: None,
            content: "second".into(),
            source: LogSource::Daemon,
            output_kind: OutputKind::Combined,
        },
        LogLine {
            timestamp: 300,
            process: "worker".into(),
            group: Some("queue".into()),
            content: "third".into(),
            source: LogSource::Process,
            output_kind: OutputKind::Stderr,
        },
    ]);
    let result = query(&conn, LogQuery::all());
    assert_eq!(result.logs.len(), 3);
    assert_eq!(result.total_count, 3);
    assert!(!result.has_more);
    assert_eq!(result.offset, 0);

    assert_eq!(result.logs[0].timestamp, 100);
    assert_eq!(result.logs[0].process, "web");
    assert_eq!(result.logs[0].group.as_deref(), Some("backend"));
    assert_eq!(result.logs[0].source, LogSource::Process);
    assert_eq!(result.logs[0].output_kind, OutputKind::Stdout);
    assert_eq!(result.logs[0].content, "first");

    assert_eq!(result.logs[1].source, LogSource::Daemon);
    assert_eq!(result.logs[1].group, None);

    assert_eq!(result.logs[2].process, "worker");
    assert_eq!(result.logs[2].output_kind, OutputKind::Stderr);
}

#[test]
fn query_pagination_matches_memory_semantics() {
    let conn = open(
        (0..20)
            .map(|i| line(i as u64 * 100, "task1", None, &format!("line {i}")))
            .collect(),
    );

    let all = query(&conn, LogQuery::process("task1"));
    assert_eq!(all.logs.len(), 20);
    assert_eq!(all.total_count, 20);
    assert!(!all.has_more);
    assert_eq!(all.offset, 0);

    let first_page = query(&conn, LogQuery::process("task1").with_limit(5));
    assert_eq!(first_page.logs.len(), 5);
    assert_eq!(first_page.total_count, 20);
    assert!(first_page.has_more);
    assert_eq!(first_page.logs[0].content, "line 0");
    assert_eq!(first_page.logs[4].content, "line 4");

    let middle_page = query(&conn, LogQuery::process("task1").with_offset(10).with_limit(5));
    assert_eq!(middle_page.logs.len(), 5);
    assert_eq!(middle_page.total_count, 20);
    assert!(middle_page.has_more);
    assert_eq!(middle_page.offset, 10);
    assert_eq!(middle_page.logs[0].content, "line 10");

    let tail_page = query(&conn, LogQuery::process("task1").with_offset(15).with_limit(10));
    assert_eq!(tail_page.logs.len(), 5);
    assert_eq!(tail_page.total_count, 20);
    assert!(!tail_page.has_more);
    assert_eq!(tail_page.offset, 15);
    assert_eq!(tail_page.logs[0].content, "line 15");
    assert_eq!(tail_page.logs[4].content, "line 19");
}

#[test]
fn query_filters_process_and_group() {
    let conn = open(vec![
        line(100, "web", Some("backend"), "a"),
        line(200, "web", None, "b"),
        line(300, "worker", Some("queue"), "c"),
        line(400, "worker", Some("backend"), "d"),
    ]);

    let web = query(&conn, LogQuery::process("web"));
    assert_eq!(web.total_count, 2);
    assert!(web.logs.iter().all(|l| l.process == "web"));

    let backend = query(&conn, LogQuery::all().with_group("backend"));
    assert_eq!(backend.total_count, 2);
    assert!(backend
        .logs
        .iter()
        .all(|l| l.group.as_deref() == Some("backend")));

    let missing = query(&conn, LogQuery::all().with_group("nope"));
    assert_eq!(missing.total_count, 0);
    assert!(missing.logs.is_empty());
}

#[test]
fn query_search_is_case_insensitive() {
    let conn = open(vec![
        line(100, "web", None, "INFO: started"),
        line(200, "web", None, "ERROR: something failed"),
        line(300, "web", None, "INFO: processing"),
        line(400, "web", None, "ERROR: another Failure"),
        line(500, "web", None, "INFO: done"),
    ]);

    for needle in ["error", "ERROR", "Error"] {
        let result = query(&conn, LogQuery::all().with_search(needle));
        assert_eq!(result.total_count, 2, "needle {needle}");
        assert!(result
            .logs
            .iter()
            .all(|l| l.content.to_lowercase().contains("error")));
    }

    let info = query(&conn, LogQuery::all().with_search("INFO").with_limit(2));
    assert_eq!(info.total_count, 3);
    assert_eq!(info.logs.len(), 2);
    assert!(info.has_more);

    let empty = query(&conn, LogQuery::all().with_search("not-present"));
    assert_eq!(empty.total_count, 0);
    assert!(empty.logs.is_empty());
}

#[test]
fn query_since_until_are_inclusive() {
    let conn = open(vec![
        line(100, "web", None, "a"),
        line(200, "web", None, "b"),
        line(300, "web", None, "c"),
        line(400, "web", None, "d"),
        line(500, "web", None, "e"),
    ]);

    let since = query(&conn, LogQuery::all().with_since(200));
    assert_eq!(since.total_count, 4);
    assert_eq!(since.logs.first().map(|l| l.timestamp), Some(200));

    let until = query(&conn, LogQuery::all().with_until(300));
    assert_eq!(until.total_count, 3);
    assert_eq!(until.logs.last().map(|l| l.timestamp), Some(300));

    let window = query(&conn, LogQuery::all().with_since(200).with_until(400));
    assert_eq!(window.total_count, 3);
    assert_eq!(window.logs.first().map(|l| l.timestamp), Some(200));
    assert_eq!(window.logs.last().map(|l| l.timestamp), Some(400));
}

#[test]
fn stats_reports_persistent_aggregates() {
    let empty = persisted_stats(0, 0, None, None);
    assert_eq!(empty.total_lines, 0);
    assert_eq!(empty.process_count, 0);
    assert_eq!(empty.oldest_timestamp, None);
    assert_eq!(empty.newest_timestamp, None);
    assert_eq!(empty.memory_bytes, 0);
    assert_eq!(empty.memory_limit, None);
    assert_eq!(empty.max_lines_per_process, 0);

    let stats = persisted_stats(4, 2, Some(50), Some(900));
    assert_eq!(stats.total_lines, 4);
    assert_eq!(stats.process_count, 2);
    assert_eq!(stats.oldest_timestamp, Some(50));
    assert_eq!(stats.newest_timestamp, Some(900));
}

#[test]
fn migrate_rejects_future_user_version() {
    match migrate(CURRENT_SCHEMA_VERSION + 5).expect_err("expected future-version rejection") {
        LogStorageError::SchemaInit(msg) => {
            assert!(msg.contains("newer zaz"), "message was: {msg}");
            assert_eq!(
                msg,
                "database created by a newer zaz (schema version 6, this build understands up to 1)"
            );
        }
        other => panic!("expected SchemaInit, got {other:?}"),
    }
}

#[test]
fn migrate_runs_from_version_zero() {
    let conn = Connection::open_in_memory().expect("in-memory conn");
    assert_eq!(user_version(&conn), 0);

    bring_up_to_date(&conn);

    assert_eq!(user_version(&conn), CURRENT_SCHEMA_VERSION);
    assert_eq!(count_schema_objects(&conn, "table", "log_entries"), 1);
}

#[test]
fn open_in_memory_succeeds_without_wal() {
    let conn = open(vec![]);
    assert_eq!(journal_mode(&conn).to_ascii_lowercase(), "memory");
    assert!(check_journal_mode(&journal_mode(&conn)).is_ok());
    assert_eq!(user_version(&conn), CURRENT_SCHEMA_VERSION);
}

#[test]
fn a_schema_that_is_up_to_date_is_left_alone() {
    let conn = open(vec![line(1_000, "task1", None, "hello")]);
    bring_up_to_date(&conn);
    assert_eq!(user_version(&conn), CURRENT_SCHEMA_VERSION);
    assert_eq!(row_count(&conn), 1);
    for index in [
        "log_entries_process_id_idx",
        "log_entries_time_id_idx",
        "log_entries_group_id_idx",
    ] {
        assert_eq!(count_schema_objects(&conn, "index", index), 1);
    }
}

#[test]
fn clear_removes_all_rows() {
    let conn = open(vec![
        line(100, "web", None, "a"),
        line(200, "worker", None, "b"),
    ]);
    assert_eq!(row_count(&conn), 2);

    conn.execute(DELETE_ALL, ()).expect("clear");
    assert_eq!(row_count(&conn), 0);
}

#[test]
fn clear_process_removes_only_named_rows() {
    let conn = open(vec![
        line(100, "web", None, "a"),
        line(200, "worker", None, "b"),
        line(300, "web", None, "c"),
    ]);

    conn.execute(DELETE_PROCESS, ("web",)).expect("clear_process");

    let remaining = query(&conn, LogQuery::all());
    assert_eq!(remaining.total_count, 1);
    assert_eq!(remaining.logs[0].process, "worker");
    assert_eq!(remaining.logs[0].content, "b");
}

#[test]
fn trait_push_round_trips_single_line() {
    let conn = open(vec![line(100, "web", Some("backend"), "single")]);

    let logs = get(&conn, "web", None);
    assert_eq!(logs.len(), 1);
    assert_eq!(logs[0].content, "single");
    assert_eq!(logs[0].group.as_deref(), Some("backend"));
}

#[test]
fn trait_push_batch_round_trips() {
    let conn = open(vec![
        line(100, "web", None, "one"),
        line(200, "web", None, "two"),
        line(300, "web", None, "three"),
    ]);

    let logs = get(&conn, "web", None);
    assert_eq!(logs.len(), 3);
    assert_eq!(logs[0].content, "one");
    assert_eq!(logs[2].content, "three");
}

#[test]
fn trait_get_returns_most_recent_when_limited() {
    let conn = open(
        (0..10)
            .map(|i| line(i as u64 * 100, "web", None, &format!("l{i}")))
            .collect(),
    );
    let last_three = get(&conn, "web", Some(3));
    assert_eq!(last_three.len(), 3);
    assert_eq!(last_three[0].content, "l7");
    assert_eq!(last_three[2].content, "l9");
}

#[test]
fn trait_get_all_processes() {
    let conn = open(vec![
        line(100, "web", None, "a"),
        line(200, "worker", None, "b"),
        line(300, "web", None, "c"),
    ]);

    let all = get(&conn, "*", None);
    assert_eq!(all.len(), 3);
    assert_eq!(all[0].timestamp, 100);
    assert_eq!(all[2].timestamp, 300);
}

#[test]
fn trait_clear_removes_all() {
    let conn = open(vec![line(100, "web", None, "a")]);
    conn.execute(DELETE_ALL, ()).expect("clear");
    assert!(get(&conn, "*", None).is_empty());
}

#[test]
fn enforce_retention_noop_when_under_limits() {
    let policy = RetentionPolicy {
        max_size_bytes: 100 * 1024 * 1024,
        max_lines_per_process: 1_000,
    };
    let conn = open(
        (0..50)
            .map(|i| line(i as u64 * 10, "web", None, &format!("line {i}")))
            .collect(),
    );

    enforce_retention(&conn, &policy);

    assert_eq!(row_count(&conn), 50);
}

#[test]
fn enforce_retention_trims_per_process_to_limit() {
    let policy = RetentionPolicy {
        max_size_bytes: 100 * 1024 * 1024,
        max_lines_per_process: 10,
    };
    let conn = open(
        (0..30)
            .map(|i| line(i as u64 * 10, "web", None, &format!("line {i}")))
            .collect(),
    );
    assert_eq!(process_row_count(&conn, "web"), 30);

    enforce_retention(&conn, &policy);

    assert_eq!(process_row_count(&conn, "web"), 10);
    let logs = get(&conn, "web", None);
    // The ten most recent rows survive; ascending-order contract holds.
    assert_eq!(logs.len(), 10);
    assert_eq!(logs[0].content, "line 20");
    assert_eq!(logs[9].content, "line 29");
}

#[test]
fn enforce_retention_per_process_independent() {
    let policy = RetentionPolicy {
        max_size_bytes: 100 * 1024 * 1024,
        max_lines_per_process: 5,
    };
    let mut batch = Vec::new();
    for i in 0..20 {
        batch.push(line(i as u64 * 10, "web", None, &format!("w{i}")));
    }
    for i in 0..3 {
        batch.push(line(2_000 + i as u64 * 10, "worker", None, &format!("k{i}")));
    }
    let conn = open(batch);

    enforce_retention(&conn, &policy);

    assert_eq!(process_row_count(&conn, "web"), 5);
    // Worker stayed under the limit and is untouched.
    assert_eq!(process_row_count(&conn, "worker"), 3);
}

#[test]
fn enforce_retention_handles_stale_process() {
    let policy = RetentionPolicy {
        max_size_bytes: 100 * 1024 * 1024,
        max_lines_per_process: 4,
    };
    let conn = open(
        (0..20)
            .map(|i| line(i as u64 * 10, "stale", None, &format!("s{i}")))
            .collect(),
    );

    enforce_retention(&conn, &policy);

    assert_eq!(process_row_count(&conn, "stale"), 4);
}

#[test]
fn enforce_retention_trims_oldest_for_size_budget() {
    // Enough rows that the size sweep must iterate the chunked delete loop at
    // least twice.
    let payload = "x".repeat(1_024);
    let total_rows = (RETENTION_CHUNK as usize) * 5;
    let conn = open(vec![]);
    conn.execute_batch("BEGIN").expect("begin");
    let batch: Vec<LogLine> = (0..total_rows)
        .map(|i| line(i as u64, "web", None, &payload))
        .collect();
    push_batch(&conn, &batch);
    conn.execute_batch("COMMIT").expect("commit");

    let before = data_bytes(&conn);
    assert!(before > 1_000_000, "expected sizeable DB, got {before}");

    let budget = (before as usize) / 2;
    let policy = RetentionPolicy {
        max_size_bytes: budget,
        max_lines_per_process: 1_000_000,
    };
    enforce_retention(&conn, &policy);

    let after = data_bytes(&conn);
    assert!(
        after <= budget as i64,
        "logical size {after} should be at or under budget {budget}",
    );

    let remaining = row_count(&conn);
    assert!(
        remaining > 0 && (remaining as usize) < total_rows,
        "expected partial trim, got {remaining} of {total_rows}",
    );

    // Surviving rows are the most recent ones.
    let first_id: i64 = conn
        .query_row("SELECT MIN(id) FROM log_entries", (), |row| row.get(0))
        .expect("oldest id");
    assert!(
        first_id > 1,
        "oldest surviving id {first_id} should be past the deleted prefix",
    );
}

#[test]
fn enforce_retention_size_sweep_bails_when_empty() {
    let policy = RetentionPolicy {
        max_size_bytes: 1,
        max_lines_per_process: 1_000,
    };
    let conn = open(vec![]);
    // No rows: nothing to delete, so the loop must terminate cleanly even
    // though the empty DB can be larger than the absurd budget.
    enforce_retention(&conn, &policy);
    assert_eq!(row_count(&conn), 0);
}

#[test]
fn aggregates_come_from_the_rows() {
    let conn = open(vec![
        line(300, "web", None, "a"),
        line(100, "worker", None, "b"),
        line(200, "web", None, "c"),
    ]);
    let stats = conn
        .query_row(SELECT_STATS, (), |row| {
            Ok(persisted_stats(
                row.get(0)?,
                row.get(1)?,
                row.get(2)?,
                row.get(3)?,
            ))
        })
        .expect("stats");
    assert_eq!(stats.total_lines, 3);
    assert_eq!(stats.process_count, 2);
    assert_eq!(stats.oldest_timestamp, Some(100));
    assert_eq!(stats.newest_timestamp, Some(300));
}

#[test]
fn migrations_below_the_first_are_missing() {
    match migrate(-3).expect_err("no such migration") {
        LogStorageError::SchemaInit(msg) => {
            assert_eq!(msg, "missing migration for schema version -2")
        }
        other => panic!("expected SchemaInit, got {other:?}"),
    }
}

#[test]
fn journal_modes_are_told_apart() {
    assert!(check_journal_mode("wal").is_ok());
    assert!(check_journal_mode("MEMORY").is_ok());
    match check_journal_mode("Delete") {
        Err(LogStorageError::Open(msg)) => {
            assert_eq!(msg, "journal_mode did not switch to wal, got Delete")
        }
        other => panic!("expected Open, got {other:?}"),
    }
    assert!(checkpoint_on_shutdown("WAL"));
    assert!(!checkpoint_on_shutdown("memory"));
}

#[test]
fn clauses_are_numbered_in_their_order() {
    let (filter, values) = build_where(
        &LogQuery::process("web")
            .with_group("g")
            .with_since(1)
            .with_until(2)
            .with_search("s"),
    );
    assert_eq!(
        filter,
        "WHERE process = ?1 AND group_name = ?2 AND timestamp_ms >= ?3 AND timestamp_ms <= ?4 \
         AND instr(LOWER(content), LOWER(?5)) > 0"
    );
    assert_eq!(values.len(), 5);
    let (filter, values) = build_where(&LogQuery::all());
    assert_eq!(filter, "");
    assert!(values.is_empty());
    assert_eq!(bound_limit(None), -1);
    assert_eq!(bound_limit(Some(3)), 3);
    assert_eq!(bound_offset(None), 0);
}

#[test]
fn retention_deletes_what_is_over_the_limits() {
    assert_eq!(excess_rows(10, 3), Some(7));
    assert_eq!(excess_rows(3, 3), None);
    assert_eq!(excess_rows(2, 3), None);
    assert_eq!(logical_data_bytes(10, 4, 4096), 6 * 4096);
    assert_eq!(logical_data_bytes(3, 4, 4096), 0);
    assert_eq!(logical_data_bytes(i64::MAX, 0, 2), i64::MAX);
    assert!(prune_again(4096, 5000, 4999, None));
    assert!(!prune_again(4096, 5000, 5000, None));
    assert!(!prune_again(4096, 5000, 4999, Some(0)));
    assert!(prune_again(4096, 5000, 4999, Some(1)));
    assert!(!prune_again(0, 5000, 4999, None));
}

#[test]
fn names_of_sources_and_kinds_are_read_back() {
    for source in [LogSource::Process, LogSource::Daemon] {
        assert_eq!(parse_source(source_to_str(source)), Ok(source));
    }
    for kind in [OutputKind::Stdout, OutputKind::Stderr, OutputKind::Combined] {
        assert_eq!(parse_output_kind(output_kind_to_str(kind)), Ok(kind));
    }
    assert_eq!(
        parse_source("x").unwrap_err(),
        "unknown log source: x"
    );
    assert_eq!(
        parse_output_kind("x").unwrap_err(),
        "unknown output kind: x"
    );
}

#[test]
fn a_row_with_an_unknown_name_tells_the_column() {
    let mut row = log_line_to_row(&line(1, "p", None, "c"));
    row.source = "x".to_string();
    assert_eq!(row_to_log_line(row).unwrap_err().0, 3);
    let mut row = log_line_to_row(&line(1, "p", None, "c"));
    row.output_kind = "x".to_string();
    assert_eq!(row_to_log_line(row).unwrap_err().0, 4);
}

#[test]
fn times_of_every_size_are_read_back() {
    for timestamp in [0, 1, u64::MAX, 1 << 63] {
        let row = log_line_to_row(&line(timestamp, "p", Some("g"), "c"));
        assert_eq!(row_to_log_line(row).unwrap().timestamp, timestamp);
    }
}

#[test]
fn databases_lie_in_the_state_directory() {
    let xdg = Some("/state".to_string());
    let home = Some("/home/u".to_string());
    assert_eq!(state_dir_base(&xdg, &home), "/state");
    assert_eq!(state_dir_base(&Some(String::new()), &home), "/home/u/.local/state");
    assert_eq!(state_dir_base(&None, &None), ".");
    assert_eq!(
        db_path_for_config(&xdg, &home, 255),
        "/state/zaz/logs/00000000000000ff.sqlite3"
    );
}

#[test]
fn db_path_in_base_keys_off_canonical_config_path() {
    let one = db_path_in_base("/base", 1);
    assert_eq!(one, db_path_in_base("/base", 1));
    assert_ne!(one, db_path_in_base("/base", 2));
    assert!(one.starts_with("/base/zaz/logs/"));
}
