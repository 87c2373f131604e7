//! Statements, values and decisions of the SQLite log storage.

use crate::daemon::api::{LogLine, LogModel, LogSource, OutputKind};
use crate::daemon::log_storage::{LogQuery, LogQueryResult, LogStorageError, LogStorageStats, QueryModel};
use crate::paths;
use crate::text::{self, cat2, cat3, cat5, decimal_of, join, signed_decimal_of, str_eq, Text};
use vstd::prelude::*;

verus! {

broadcast use crate::text::lemma_texts_push;

/// Latest schema version this build understands.
pub const CURRENT_SCHEMA_VERSION: i32 = 1;

/// Maximum rows deleted per pass when pruning for the size budget.
pub const RETENTION_CHUNK: i64 = 1_000;

/// The first version of the schema: the lines, and an index for each kind of
/// query.
pub const SCHEMA_V1: &'static str = "BEGIN;
     CREATE TABLE log_entries (
         id INTEGER PRIMARY KEY AUTOINCREMENT,
         timestamp_ms INTEGER NOT NULL,
         process TEXT NOT NULL,
         group_name TEXT,
         source TEXT NOT NULL,
         output_kind TEXT NOT NULL,
         content TEXT NOT NULL
     );
     CREATE INDEX log_entries_process_id_idx ON log_entries(process, id);
     CREATE INDEX log_entries_time_id_idx ON log_entries(timestamp_ms, id);
     CREATE INDEX log_entries_group_id_idx ON log_entries(group_name, id);
     PRAGMA user_version = 1;
     COMMIT;";

/// Inserts a row.
pub const INSERT_ROW: &'static str = "INSERT INTO log_entries
         (timestamp_ms, process, group_name, source, output_kind, content)
     VALUES (?1, ?2, ?3, ?4, ?5, ?6)";

/// Counts the rows and the processes, and finds the oldest and the newest time.
pub const SELECT_STATS: &'static str =
    "SELECT COUNT(*), COUNT(DISTINCT process), MIN(timestamp_ms), MAX(timestamp_ms)
     FROM log_entries";

/// Deletes every row.
pub const DELETE_ALL: &'static str = "DELETE FROM log_entries";

/// Deletes the rows of a process.
pub const DELETE_PROCESS: &'static str = "DELETE FROM log_entries WHERE process = ?1";

/// Counts the rows of each process.
pub const COUNT_BY_PROCESS: &'static str = "SELECT process, COUNT(*) FROM log_entries GROUP BY process";

/// Deletes the oldest rows of a process, as many as are bound.
pub const DELETE_EXCESS: &'static str = "DELETE FROM log_entries WHERE id IN (
         SELECT id FROM log_entries WHERE process = ?1 ORDER BY id ASC LIMIT ?2)";

/// Deletes the oldest rows, as many as are bound.
pub const DELETE_OLDEST: &'static str = "DELETE FROM log_entries WHERE id IN (
         SELECT id FROM log_entries ORDER BY id ASC LIMIT ?1)";

/// Persistent retention limits.
///
/// Both limits are enforced together: the per-process sweep deletes oldest rows
/// for any process whose persisted row count exceeds `max_lines_per_process`,
/// then the size sweep deletes oldest rows globally until the logical data size
/// is under `max_size_bytes`.
#[derive(Debug, Clone, Copy)]
pub struct RetentionPolicy {
    /// Maximum logical data bytes the persisted log set may occupy.
    pub max_size_bytes: usize,
    /// Maximum rows retained per process.
    pub max_lines_per_process: usize,
}

/// A value that is bound to a statement.
#[derive(Debug)]
pub enum SqlValue {
    Integer(i64),
    Text(String),
}

/// The model of a bound value.
pub enum SqlModel {
    Integer(i64),
    Text(Text),
}

impl View for SqlValue {
    type V = SqlModel;

    open spec fn view(&self) -> SqlModel {
        match *self {
            SqlValue::Integer(n) => SqlModel::Integer(n),
            SqlValue::Text(s) => SqlModel::Text(s@),
        }
    }
}

/// The models of some bound values.
pub open spec fn sql_values(v: Seq<SqlValue>) -> Seq<SqlModel> {
    Seq::new(v.len(), |i: int| v[i]@)
}

/// One condition of a query: a text before and one behind the place of its
/// value, and the value.
pub struct Condition {
    pub before: Text,
    pub after: Text,
    pub value: SqlModel,
}

/// A condition, if a value is asked for.
pub open spec fn condition_if(value: Option<SqlModel>, before: Text, after: Text) -> Seq<Condition> {
    match value {
        Some(value) => seq![Condition { before, after, value }],
        None => Seq::empty(),
    }
}

/// A text to bind, if there is one.
pub open spec fn text_value(s: Option<Text>) -> Option<SqlModel> {
    match s {
        Some(s) => Some(SqlModel::Text(s)),
        None => None,
    }
}

/// A time to bind, if there is one.
pub open spec fn time_value(t: Option<u64>) -> Option<SqlModel> {
    match t {
        Some(t) => Some(SqlModel::Integer(t as i64)),
        None => None,
    }
}

/// The conditions of a query, in order: process, group, time, text.
pub open spec fn conditions(query: QueryModel) -> Seq<Condition> {
    condition_if(
        if query.effective_process() == "*"@ {
            None
        } else {
            text_value(query.process)
        },
        "process = ?"@,
        ""@,
    ) + condition_if(text_value(query.group), "group_name = ?"@, ""@) + condition_if(
        time_value(query.since),
        "timestamp_ms >= ?"@,
        ""@,
    ) + condition_if(time_value(query.until), "timestamp_ms <= ?"@, ""@) + condition_if(
        text_value(query.search),
        "instr(LOWER(content), LOWER(?"@,
        ")) > 0"@,
    )
}

/// The texts of some conditions; their values are numbered from one on.
pub open spec fn clauses(list: Seq<Condition>) -> Seq<Text> {
    Seq::new(
        list.len(),
        |i: int| list[i].before + text::decimal((i + 1) as nat) + list[i].after,
    )
}

/// The filter that some conditions make.
pub open spec fn where_text(list: Seq<Condition>) -> Text {
    if list.len() == 0 {
        Seq::empty()
    } else {
        "WHERE "@ + text::joined(clauses(list), " AND "@)
    }
}

/// The values of some conditions.
pub open spec fn bound(list: Seq<Condition>) -> Seq<SqlModel> {
    Seq::new(list.len(), |i: int| list[i].value)
}

/// Conditions as they are collected.
struct Filter {
    clauses: Vec<String>,
    params: Vec<SqlValue>,
}

impl Filter {
    spec fn holds(self, list: Seq<Condition>) -> bool {
        text::texts(self.clauses@) == clauses(list) && sql_values(self.params@) == bound(list)
    }

    /// Adds a condition, if a value is asked for.
    fn add_condition(&mut self, before: &str, after: &str, value: Option<SqlValue>)
        requires
            old(self).params@.len() < 64,
        ensures
            forall|list: Seq<Condition>| #[trigger]
                old(self).holds(list) ==> final(self).holds(
                    list + condition_if(value_model(value), before@, after@),
                ),
            final(self).params@.len() <= old(self).params@.len() + 1,
    {
        match value {
            Some(value) => {
                let n: u64 = self.params.len() as u64 + 1;
                self.clauses.push(cat3(before, decimal_of(n).as_str(), after));
                self.params.push(value);
                proof {
                    let one = Condition { before: before@, after: after@, value: value@ };
                    assert forall|list: Seq<Condition>| #[trigger]
                        old(self).holds(list) implies self.holds(list + seq![one]) by {
                        assert(bound(list).len() == list.len());
                        assert(text::texts(self.clauses@) =~= clauses(list + seq![one])) by {
                            assert(clauses(list).push(before@ + text::decimal(n as nat) + after@)
                                =~= clauses(list + seq![one]));
                        }
                        assert(sql_values(self.params@) =~= bound(list + seq![one])) by {
                            assert(sql_values(self.params@) =~= sql_values(
                                old(self).params@,
                            ).push(value@));
                        }
                    }
                }
            },
            None => {
                assert forall|list: Seq<Condition>| #[trigger] old(self).holds(list) implies self.holds(
                    list + Seq::<Condition>::empty(),
                ) by {
                    assert(list + Seq::<Condition>::empty() =~= list);
                }
            },
        }
    }
}

/// The model of a value that may be asked for.
pub open spec fn value_model(value: Option<SqlValue>) -> Option<SqlModel> {
    match value {
        Some(value) => Some(value@),
        None => None,
    }
}

fn text_of(s: &Option<String>) -> (r: Option<SqlValue>)
    ensures
        value_model(r) == text_value(text::opt_text(*s)),
{
    match s {
        Some(s) => Some(SqlValue::Text(s.clone())),
        None => None,
    }
}

fn time_of(t: Option<u64>) -> (r: Option<SqlValue>)
    ensures
        value_model(r) == time_value(t),
{
    match t {
        Some(t) => Some(SqlValue::Integer(t as i64)),
        None => None,
    }
}

/// Build the shared filter and positional parameter list used by both the count
/// and the paginated select.
pub fn build_where(query: &LogQuery) -> (r: (String, Vec<SqlValue>))
    ensures
        r.0@ == where_text(conditions(query@)),
        sql_values(r.1@) == bound(conditions(query@)),
{
    let mut filter = Filter { clauses: Vec::new(), params: Vec::new() };
    let ghost none: Seq<Condition> = Seq::empty();
    proof {
        assert(text::texts(filter.clauses@) =~= clauses(none));
        assert(sql_values(filter.params@) =~= bound(none));
        assert(filter.holds(none));
    }
    let process = if query.is_all_processes() {
        None
    } else {
        text_of(&query.process)
    };
    let ghost l1 = none + condition_if(value_model(process), "process = ?"@, ""@);
    filter.add_condition("process = ?", "", process);
    assert(filter.holds(l1));
    let ghost l2 = l1 + condition_if(text_value(query@.group), "group_name = ?"@, ""@);
    filter.add_condition("group_name = ?", "", text_of(&query.group));
    assert(filter.holds(l2));
    let ghost l3 = l2 + condition_if(time_value(query@.since), "timestamp_ms >= ?"@, ""@);
    filter.add_condition("timestamp_ms >= ?", "", time_of(query.since));
    assert(filter.holds(l3));
    let ghost l4 = l3 + condition_if(time_value(query@.until), "timestamp_ms <= ?"@, ""@);
    filter.add_condition("timestamp_ms <= ?", "", time_of(query.until));
    assert(filter.holds(l4));
    filter.add_condition("instr(LOWER(content), LOWER(?", ")) > 0", text_of(&query.search));
    let ghost list = l4 + condition_if(
        text_value(query@.search),
        "instr(LOWER(content), LOWER(?"@,
        ")) > 0"@,
    );
    assert(filter.holds(list));
    assert(list =~= conditions(query@));
    let n = filter.clauses.len();
    let text = if n == 0 {
        let empty = String::new();
        assert(empty@ =~= Seq::empty());
        empty
    } else {
        assert(text::texts(filter.clauses@).take(n as int) =~= text::texts(filter.clauses@));
        cat2("WHERE ", join(&filter.clauses, n, " AND ").as_str())
    };
    (text, filter.params)
}

/// The statement that counts the matching rows.
pub fn count_statement(filter: &str) -> (r: String)
    ensures
        r@ == "SELECT COUNT(*) FROM log_entries "@ + filter@,
{
    cat2("SELECT COUNT(*) FROM log_entries ", filter)
}

/// The statement that selects a page of the matching rows; the length and the
/// offset of the page are bound behind the values of the filter.
pub open spec fn select_text(filter: Text, bound: nat) -> Text {
    "SELECT timestamp_ms, process, group_name, source, output_kind, content FROM log_entries "@
        + filter + " ORDER BY timestamp_ms ASC, id ASC LIMIT ?"@ + text::decimal(bound + 1)
        + " OFFSET ?"@ + text::decimal(bound + 2)
}

/// The statement that selects a page of the matching rows.
pub fn select_statement(filter: &str, bound: usize) -> (r: String)
    requires
        bound <= usize::MAX - 2,
    ensures
        r@ == select_text(filter@, bound as nat),
{
    let mut s = cat5(
        "SELECT timestamp_ms, process, group_name, source, output_kind, content FROM log_entries ",
        filter,
        " ORDER BY timestamp_ms ASC, id ASC LIMIT ?",
        decimal_of((bound + 1) as u64).as_str(),
        " OFFSET ?",
    );
    s.append(decimal_of((bound + 2) as u64).as_str());
    s
}

/// The page length to bind: a negative one stands for no limit.
pub fn bound_limit(limit: Option<usize>) -> (r: i64)
    ensures
        r == match limit {
            Some(n) => (n as i64) as int,
            None => -1,
        },
{
    match limit {
        Some(n) => n as i64,
        None => -1,
    }
}

/// The statement that selects the latest rows, oldest first, with a filter and
/// the limit bound behind its values.
pub open spec fn latest_text(filter: Text, bound: nat) -> Text {
    "SELECT timestamp_ms, process, group_name, source, output_kind, content FROM (SELECT id, timestamp_ms, process, group_name, source, output_kind, content FROM log_entries"@
        + filter + " ORDER BY timestamp_ms DESC, id DESC LIMIT ?"@ + text::decimal(bound + 1)
        + ") ORDER BY timestamp_ms ASC, id ASC"@
}

/// The statement that selects the latest rows of a process, or of all of them for
/// `"*"`, oldest first, with the values to bind.
pub fn latest_statement(name: &str, limit: Option<usize>) -> (r: (String, Vec<SqlValue>))
    ensures
        ({
            let limit = SqlModel::Integer(
                match limit {
                    Some(n) => n as i64,
                    None => -1i64,
                },
            );
            if name@ == "*"@ {
                r.0@ == latest_text(Seq::empty(), 0) && sql_values(r.1@) == seq![limit]
            } else {
                r.0@ == latest_text(" WHERE process = ?1"@, 1) && sql_values(r.1@) == seq![
                    SqlModel::Text(name@),
                    limit,
                ]
            }
        }),
{
    let all = str_eq(name, "*");
    let mut values: Vec<SqlValue> = Vec::new();
    let filter: &str = if all {
        ""
    } else {
        values.push(SqlValue::Text(name.to_owned()));
        " WHERE process = ?1"
    };
    let bound: u64 = if all {
        0
    } else {
        1
    };
    let text = cat5(
        "SELECT timestamp_ms, process, group_name, source, output_kind, content FROM (SELECT id, timestamp_ms, process, group_name, source, output_kind, content FROM log_entries",
        filter,
        " ORDER BY timestamp_ms DESC, id DESC LIMIT ?",
        decimal_of(bound + 1).as_str(),
        ") ORDER BY timestamp_ms ASC, id ASC",
    );
    values.push(SqlValue::Integer(bound_limit(limit)));
    proof {
        reveal_strlit("");
        assert(""@ =~= Seq::<char>::empty());
        if all {
            assert(sql_values(values@) =~= seq![values@[0]@]);
        } else {
            assert(sql_values(values@) =~= seq![values@[0]@, values@[1]@]);
        }
    }
    (text, values)
}

/// The offset to bind.
pub fn bound_offset(offset: Option<usize>) -> (r: i64)
    ensures
        r == match offset {
            Some(n) => n as i64,
            None => 0,
        },
{
    match offset {
        Some(n) => n as i64,
        None => 0,
    }
}

/// A count from the database, which is never negative.
pub open spec fn counted(n: i64) -> usize {
    if n > 0 {
        n as usize
    } else {
        0
    }
}

fn count_of(n: i64) -> (r: usize)
    ensures
        r == counted(n),
{
    if n > 0 {
        n as usize
    } else {
        0
    }
}

/// The result of a query: a page of rows, and how many match.
pub fn page_result(logs: Vec<LogLine>, total_count: i64, offset: Option<usize>) -> (r:
    LogQueryResult)
    requires
        offset matches Some(o) ==> o + logs@.len() <= usize::MAX,
    ensures
        r.logs == logs,
        r.total_count == counted(total_count),
        r.offset == match offset {
            Some(o) => o,
            None => 0,
        },
        r.has_more == (r.offset + logs@.len() < r.total_count),
{
    let offset: usize = match offset {
        Some(o) => o,
        None => 0,
    };
    let total_count = count_of(total_count);
    let has_more = offset + logs.len() < total_count;
    LogQueryResult { logs, total_count, has_more, offset }
}

/// Statistics over the persisted log set. What belongs to the hot buffer is left
/// at its default.
pub fn persisted_stats(
    total_lines: i64,
    process_count: i64,
    oldest: Option<i64>,
    newest: Option<i64>,
) -> (r: LogStorageStats)
    ensures
        r == (LogStorageStats {
            total_lines: counted(total_lines),
            process_count: counted(process_count),
            memory_bytes: 0,
            oldest_timestamp: match oldest {
                Some(t) => Some(t as u64),
                None => None,
            },
            newest_timestamp: match newest {
                Some(t) => Some(t as u64),
                None => None,
            },
            memory_limit: None,
            max_lines_per_process: 0,
        }),
{
    LogStorageStats {
        total_lines: count_of(total_lines),
        process_count: count_of(process_count),
        memory_bytes: 0,
        oldest_timestamp: match oldest {
            Some(t) => Some(t as u64),
            None => None,
        },
        newest_timestamp: match newest {
            Some(t) => Some(t as u64),
            None => None,
        },
        memory_limit: None,
        max_lines_per_process: 0,
    }
}

/// How many of the oldest rows of a process are to go, if any.
pub fn excess_rows(count: i64, max: usize) -> (r: Option<i64>)
    requires
        count - (max as i64) <= i64::MAX,
        count - (max as i64) >= i64::MIN,
    ensures
        r == if count > max as i64 {
            Some((count - (max as i64)) as i64)
        } else {
            None
        },
{
    let excess: i64 = count - (max as i64);
    if excess <= 0 {
        None
    } else {
        Some(excess)
    }
}

/// The bytes that the data takes, without free pages.
pub open spec fn data_bytes(page_count: i64, freelist: i64, page_size: i64) -> int {
    let used = if page_count > freelist {
        page_count - freelist
    } else {
        0
    };
    let bytes = used * page_size;
    if bytes > i64::MAX {
        i64::MAX as int
    } else if bytes < i64::MIN {
        i64::MIN as int
    } else {
        bytes
    }
}

/// The bytes that the data takes, without free pages.
pub fn logical_data_bytes(page_count: i64, freelist: i64, page_size: i64) -> (r: i64)
    requires
        i64::MIN <= page_count - freelist <= i64::MAX,
    ensures
        r == data_bytes(page_count, freelist, page_size),
{
    let used: i64 = if page_count > freelist {
        page_count - freelist
    } else {
        0
    };
    proof {
        assert(-0x8000_0000_0000_0000 * 0x7fff_ffff_ffff_ffff <= used * page_size <= 0x7fff_ffff_ffff_ffff
            * 0x7fff_ffff_ffff_ffff) by (nonlinear_arith)
            requires
                0 <= used <= 0x7fff_ffff_ffff_ffff,
                -0x8000_0000_0000_0000 <= page_size <= 0x7fff_ffff_ffff_ffff,
        ;
    }
    let bytes: i128 = used as i128 * page_size as i128;
    if bytes > i64::MAX as i128 {
        i64::MAX
    } else if bytes < i64::MIN as i128 {
        i64::MIN
    } else {
        bytes as i64
    }
}

/// Whether another chunk of the oldest rows is to go: while the data is over its
/// budget, until a pass deletes nothing. Without a page size there is no data to
/// speak of.
pub fn prune_again(
    page_size: i64,
    data_bytes: i64,
    max_bytes: usize,
    last_deleted: Option<usize>,
) -> (r: bool)
    ensures
        r == (page_size > 0 && last_deleted != Some(0usize) && data_bytes > max_bytes as i64),
{
    match last_deleted {
        Some(0) => false,
        _ => page_size > 0 && data_bytes > max_bytes as i64,
    }
}

/// Whether the journal keeps to the mode that it is to have. A database in
/// memory keeps a mode of its own.
pub fn check_journal_mode(mode: &str) -> (r: Result<(), LogStorageError>)
    ensures
        if text::same_word(mode@, "wal"@) || text::same_word(mode@, "memory"@) {
            r is Ok
        } else {
            r matches Err(LogStorageError::Open(m)) && m@
                == "journal_mode did not switch to wal, got "@ + mode@
        },
{
    proof {
        reveal_strlit("wal");
        reveal_strlit("memory");
    }
    if text::is_word(mode, "wal") || text::is_word(mode, "memory") {
        Ok(())
    } else {
        Err(LogStorageError::Open(cat2("journal_mode did not switch to wal, got ", mode)))
    }
}

/// Whether a shutdown is to checkpoint the journal.
pub fn checkpoint_on_shutdown(mode: &str) -> (r: bool)
    ensures
        r == text::same_word(mode@, "wal"@),
{
    proof {
        reveal_strlit("wal");
    }
    text::is_word(mode, "wal")
}

/// The schema versions that are to be migrated to, in order, given the version
/// of a database. A newer database is rejected, so that a downgrade does not
/// silently rewrite history.
pub fn migrate(current: i32) -> (r: Result<Vec<i32>, LogStorageError>)
    ensures
        if current > CURRENT_SCHEMA_VERSION {
            r matches Err(LogStorageError::SchemaInit(m)) && m@
                == "database created by a newer zaz (schema version "@ + text::signed_decimal(
                current as int,
            ) + ", this build understands up to "@ + text::signed_decimal(
                CURRENT_SCHEMA_VERSION as int,
            ) + ")"@
        } else if current < 0 {
            r matches Err(LogStorageError::SchemaInit(m)) && m@
                == "missing migration for schema version "@ + text::signed_decimal(current + 1)
        } else {
            r matches Ok(v) && v@ == if current == 0 {
                seq![1i32]
            } else {
                Seq::empty()
            }
        },
{
    if current > CURRENT_SCHEMA_VERSION {
        return Err(
            LogStorageError::SchemaInit(
                cat5(
                    "database created by a newer zaz (schema version ",
                    signed_decimal_of(current).as_str(),
                    ", this build understands up to ",
                    signed_decimal_of(CURRENT_SCHEMA_VERSION).as_str(),
                    ")",
                ),
            ),
        );
    }
    if current < 0 {
        return Err(
            LogStorageError::SchemaInit(
                cat2(
                    "missing migration for schema version ",
                    signed_decimal_of(current + 1).as_str(),
                ),
            ),
        );
    }
    let mut steps: Vec<i32> = Vec::new();
    if current == 0 {
        steps.push(1);
    }
    assert(steps@ =~= if current == 0 {
        seq![1i32]
    } else {
        Seq::empty()
    });
    Ok(steps)
}

/// The notation of a log source.
pub open spec fn source_text(s: LogSource) -> Text {
    match s {
        LogSource::Process => "process"@,
        LogSource::Daemon => "daemon"@,
    }
}

/// The notation of an output kind.
pub open spec fn output_kind_text(k: OutputKind) -> Text {
    match k {
        OutputKind::Stdout => "stdout"@,
        OutputKind::Stderr => "stderr"@,
        OutputKind::Combined => "combined"@,
    }
}

/// The notation of a log source.
pub fn source_to_str(s: LogSource) -> (r: &'static str)
    ensures
        r@ == source_text(s),
{
    match s {
        LogSource::Process => "process",
        LogSource::Daemon => "daemon",
    }
}

/// The notation of an output kind.
pub fn output_kind_to_str(k: OutputKind) -> (r: &'static str)
    ensures
        r@ == output_kind_text(k),
{
    match k {
        OutputKind::Stdout => "stdout",
        OutputKind::Stderr => "stderr",
        OutputKind::Combined => "combined",
    }
}

/// The log source of a notation.
pub open spec fn source_of(s: Text) -> Option<LogSource> {
    if s == "process"@ {
        Some(LogSource::Process)
    } else if s == "daemon"@ {
        Some(LogSource::Daemon)
    } else {
        None
    }
}

/// The output kind of a notation.
pub open spec fn output_kind_of(s: Text) -> Option<OutputKind> {
    if s == "stdout"@ {
        Some(OutputKind::Stdout)
    } else if s == "stderr"@ {
        Some(OutputKind::Stderr)
    } else if s == "combined"@ {
        Some(OutputKind::Combined)
    } else {
        None
    }
}

/// The log source of a notation.
pub fn parse_source(s: &str) -> (r: Result<LogSource, String>)
    ensures
        match source_of(s@) {
            Some(source) => r == Ok::<LogSource, String>(source),
            None => r matches Err(e) && e@ == "unknown log source: "@ + s@,
        },
{
    if str_eq(s, "process") {
        Ok(LogSource::Process)
    } else if str_eq(s, "daemon") {
        Ok(LogSource::Daemon)
    } else {
        Err(cat2("unknown log source: ", s))
    }
}

/// The output kind of a notation.
pub fn parse_output_kind(s: &str) -> (r: Result<OutputKind, String>)
    ensures
        match output_kind_of(s@) {
            Some(kind) => r == Ok::<OutputKind, String>(kind),
            None => r matches Err(e) && e@ == "unknown output kind: "@ + s@,
        },
{
    if str_eq(s, "stdout") {
        Ok(OutputKind::Stdout)
    } else if str_eq(s, "stderr") {
        Ok(OutputKind::Stderr)
    } else if str_eq(s, "combined") {
        Ok(OutputKind::Combined)
    } else {
        Err(cat2("unknown output kind: ", s))
    }
}

/// The columns of a row of logs.
#[derive(Debug)]
pub struct Row {
    pub timestamp_ms: i64,
    pub process: String,
    pub group_name: Option<String>,
    pub source: String,
    pub output_kind: String,
    pub content: String,
}

/// The model of a row.
pub struct RowModel {
    pub timestamp_ms: i64,
    pub process: Text,
    pub group_name: Option<Text>,
    pub source: Text,
    pub output_kind: Text,
    pub content: Text,
}

impl View for Row {
    type V = RowModel;

    open spec fn view(&self) -> RowModel {
        RowModel {
            timestamp_ms: self.timestamp_ms,
            process: self.process@,
            group_name: text::opt_text(self.group_name),
            source: self.source@,
            output_kind: self.output_kind@,
            content: self.content@,
        }
    }
}

/// The row that a line is stored as.
pub open spec fn row_of(l: LogModel) -> RowModel {
    RowModel {
        timestamp_ms: l.timestamp as i64,
        process: l.process,
        group_name: l.group,
        source: source_text(l.source),
        output_kind: output_kind_text(l.output_kind),
        content: l.content,
    }
}

/// The line that a row stands for, if its notations are known.
pub open spec fn line_of(row: RowModel) -> Option<LogModel> {
    match (source_of(row.source), output_kind_of(row.output_kind)) {
        (Some(source), Some(output_kind)) => Some(
            LogModel {
                timestamp: row.timestamp_ms as u64,
                process: row.process,
                group: row.group_name,
                content: row.content,
                source,
                output_kind,
            },
        ),
        _ => None,
    }
}

/// The row that a line is stored as.
pub fn log_line_to_row(log: &LogLine) -> (r: Row)
    ensures
        r@ == row_of(log@),
{
    Row {
        timestamp_ms: log.timestamp as i64,
        process: log.process.clone(),
        group_name: log.group.clone(),
        source: source_to_str(log.source).to_owned(),
        output_kind: output_kind_to_str(log.output_kind).to_owned(),
        content: log.content.clone(),
    }
}

/// The line that a row stands for, or the column that cannot be read and why.
pub fn row_to_log_line(row: Row) -> (r: Result<LogLine, (usize, String)>)
    ensures
        match r {
            Ok(line) => line_of(row@) == Some(line@),
            Err((column, e)) => line_of(row@) is None && if source_of(row@.source) is None {
                column == 3 && e@ == "unknown log source: "@ + row@.source
            } else {
                column == 4 && e@ == "unknown output kind: "@ + row@.output_kind
            },
        },
{
    let source = match parse_source(row.source.as_str()) {
        Ok(source) => source,
        Err(e) => {
            return Err((3, e));
        },
    };
    let output_kind = match parse_output_kind(row.output_kind.as_str()) {
        Ok(kind) => kind,
        Err(e) => {
            return Err((4, e));
        },
    };
    Ok(
        LogLine {
            timestamp: row.timestamp_ms as u64,
            process: row.process,
            group: row.group_name,
            content: row.content,
            source,
            output_kind,
        },
    )
}

/// A line that is stored is read back as it was.
pub proof fn law_rows_give_back_their_lines(l: LogModel)
    ensures
        line_of(row_of(l)) == Some(l),
{
    reveal_strlit("process");
    reveal_strlit("daemon");
    reveal_strlit("stdout");
    reveal_strlit("stderr");
    reveal_strlit("combined");
    assert("process"@.len() != "daemon"@.len());
    assert("stdout"@[3] == 'o');
    assert("stderr"@[3] == 'e');
    assert("combined"@.len() == 8);
    let t = l.timestamp;
    assert((t as i64) as u64 == t) by (bit_vector);
}

/// The directory for state: `$XDG_STATE_HOME` where it is set and not empty, else
/// the one in the home directory.
pub open spec fn state_base(xdg: Option<Text>, home: Option<Text>) -> Text {
    if xdg is Some && xdg->0.len() > 0 {
        xdg->0
    } else {
        match home {
            Some(home) => paths::joined(home, ".local/state"@),
            None => "."@,
        }
    }
}

/// The directory for state, given `$XDG_STATE_HOME` and `$HOME`.
pub fn state_dir_base(xdg_state_home: &Option<String>, home: &Option<String>) -> (r: String)
    ensures
        r@ == state_base(text::opt_text(*xdg_state_home), text::opt_text(*home)),
{
    if let Some(xdg) = xdg_state_home {
        if xdg.as_str().unicode_len() > 0 {
            return xdg.clone();
        }
    }
    match home {
        Some(home) => paths::join(home.as_str(), ".local/state"),
        None => ".".to_owned(),
    }
}

/// The database of a configuration file, by the hash of its resolved path.
pub open spec fn db_file(base: Text, hash: u64) -> Text {
    paths::joined(
        paths::joined(paths::joined(base, "zaz"@), "logs"@),
        paths::hash_name(hash, ".sqlite3"@),
    )
}

/// Resolve the persistent log database path of a configuration file, by the hash
/// of its resolved path.
///
/// Always lands under `$XDG_STATE_HOME/zaz/logs/<hash>.sqlite3`, falling back to
/// `~/.local/state/zaz/logs/<hash>.sqlite3`, and never in the project itself.
pub fn db_path_for_config(
    xdg_state_home: &Option<String>,
    home: &Option<String>,
    hash: u64,
) -> (r: String)
    ensures
        r@ == db_file(
            state_base(text::opt_text(*xdg_state_home), text::opt_text(*home)),
            hash,
        ),
{
    db_path_in_base(state_dir_base(xdg_state_home, home).as_str(), hash)
}

/// The database of a configuration file, by the hash of its resolved path.
pub fn db_path_in_base(base: &str, hash: u64) -> (r: String)
    ensures
        r@ == db_file(base@, hash),
{
    let dir = paths::join(paths::join(base, "zaz").as_str(), "logs");
    paths::join(dir.as_str(), paths::hash_name_of(hash, ".sqlite3").as_str())
}

} // verus!
