//! Log storage abstraction layer.
//!
//! The `LogStorage` trait abstracts the storage backend. The simple `get`
//! returns the most recent lines of a process; `query` filters and pages.

use crate::daemon::api::{LogLine, LogModel};
use crate::text::{self, Text};
use vstd::prelude::*;

verus! {

/// Query parameters for retrieving logs. All fields are optional.
#[derive(Debug)]
pub struct LogQuery {
    /// Process name filter. Use "*" or `None` for all processes.
    pub process: Option<String>,
    /// Group name filter. If `None`, all groups are included.
    pub group: Option<String>,
    /// Number of results to skip (for pagination). Defaults to 0.
    pub offset: Option<usize>,
    /// Maximum number of results to return. If `None`, all matching logs.
    pub limit: Option<usize>,
    /// Text search pattern (case-insensitive substring match).
    pub search: Option<String>,
    /// Minimum timestamp (inclusive, milliseconds since epoch).
    pub since: Option<u64>,
    /// Maximum timestamp (inclusive, milliseconds since epoch).
    pub until: Option<u64>,
}

/// The model of a log query.
pub struct QueryModel {
    pub process: Option<Text>,
    pub group: Option<Text>,
    pub offset: Option<usize>,
    pub limit: Option<usize>,
    pub search: Option<Text>,
    pub since: Option<u64>,
    pub until: Option<u64>,
}

impl View for LogQuery {
    type V = QueryModel;

    open spec fn view(&self) -> QueryModel {
        QueryModel {
            process: text::opt_text(self.process),
            group: text::opt_text(self.group),
            offset: self.offset,
            limit: self.limit,
            search: text::opt_text(self.search),
            since: self.since,
            until: self.until,
        }
    }
}

/// The query that filters nothing.
pub open spec fn no_filter() -> QueryModel {
    QueryModel {
        process: None,
        group: None,
        offset: None,
        limit: None,
        search: None,
        since: None,
        until: None,
    }
}

impl QueryModel {
    /// The process asked for, where none stands for all of them.
    pub open spec fn effective_process(self) -> Text {
        match self.process {
            Some(p) => p,
            None => "*"@,
        }
    }

    /// Whether a line has the group and the time asked for.
    pub open spec fn in_scope(self, l: LogModel) -> bool {
        &&& self.group matches Some(g) ==> l.group == Some(g)
        &&& self.since matches Some(t) ==> l.timestamp >= t
        &&& self.until matches Some(t) ==> l.timestamp <= t
    }

    /// Whether a line has the group, the time and the text asked for.
    pub open spec fn matches_line(self, l: LogModel) -> bool {
        &&& self.in_scope(l)
        &&& self.search matches Some(p) ==> text::contains(
            text::lowercase(l.content),
            text::lowercase(p),
        )
    }

    /// How many results are skipped.
    pub open spec fn start(self) -> int {
        match self.offset {
            Some(o) => o as int,
            None => 0,
        }
    }

    /// The part of the matching lines that a page holds.
    pub open spec fn page(self, matching: Seq<LogModel>) -> Seq<LogModel> {
        let rest = if self.start() <= matching.len() {
            matching.skip(self.start())
        } else {
            Seq::empty()
        };
        match self.limit {
            Some(n) => if n <= rest.len() {
                rest.take(n as int)
            } else {
                rest
            },
            None => rest,
        }
    }
}

impl Default for LogQuery {
    fn default() -> (r: Self)
        ensures
            r@ == no_filter(),
    {
        LogQuery {
            process: None,
            group: None,
            offset: None,
            limit: None,
            search: None,
            since: None,
            until: None,
        }
    }
}

impl LogQuery {
    /// Create a query for a specific process.
    pub fn process(name: &str) -> (r: Self)
        ensures
            r@ == (QueryModel { process: Some(name@), ..no_filter() }),
    {
        let mut query = LogQuery::default();
        query.process = Some(name.to_owned());
        query
    }

    /// Create a query for all processes.
    pub fn all() -> (r: Self)
        ensures
            r@ == (QueryModel { process: Some("*"@), ..no_filter() }),
    {
        Self::process("*")
    }

    /// Set the offset (builder pattern).
    pub fn with_offset(self, offset: usize) -> (r: Self)
        ensures
            r@ == (QueryModel { offset: Some(offset), ..self@ }),
    {
        let mut query = self;
        query.offset = Some(offset);
        query
    }

    /// Set the limit (builder pattern).
    pub fn with_limit(self, limit: usize) -> (r: Self)
        ensures
            r@ == (QueryModel { limit: Some(limit), ..self@ }),
    {
        let mut query = self;
        query.limit = Some(limit);
        query
    }

    /// Set the search pattern (builder pattern).
    pub fn with_search(self, pattern: &str) -> (r: Self)
        ensures
            r@ == (QueryModel { search: Some(pattern@), ..self@ }),
    {
        let mut query = self;
        query.search = Some(pattern.to_owned());
        query
    }

    /// Set the since timestamp filter (builder pattern).
    pub fn with_since(self, timestamp: u64) -> (r: Self)
        ensures
            r@ == (QueryModel { since: Some(timestamp), ..self@ }),
    {
        let mut query = self;
        query.since = Some(timestamp);
        query
    }

    /// Set the until timestamp filter (builder pattern).
    pub fn with_until(self, timestamp: u64) -> (r: Self)
        ensures
            r@ == (QueryModel { until: Some(timestamp), ..self@ }),
    {
        let mut query = self;
        query.until = Some(timestamp);
        query
    }

    /// Set the group filter (builder pattern).
    pub fn with_group(self, group: &str) -> (r: Self)
        ensures
            r@ == (QueryModel { group: Some(group@), ..self@ }),
    {
        let mut query = self;
        query.group = Some(group.to_owned());
        query
    }

    /// Returns the effective process filter, treating `None` as "*".
    pub fn effective_process(&self) -> (r: &str)
        ensures
            r@ == self@.effective_process(),
    {
        match &self.process {
            Some(p) => p.as_str(),
            None => "*",
        }
    }

    /// Returns whether this query is for all processes.
    pub fn is_all_processes(&self) -> (r: bool)
        ensures
            r == (self@.effective_process() == "*"@),
    {
        text::str_eq(self.effective_process(), "*")
    }

    /// Whether a line has the group and the time asked for.
    pub fn in_scope(&self, line: &LogLine) -> (r: bool)
        ensures
            r == self@.in_scope(line@),
    {
        match &self.group {
            Some(_) => {
                if !text::opt_eq(&line.group, &self.group) {
                    return false;
                }
            },
            None => {},
        }
        match self.since {
            Some(t) => {
                if line.timestamp < t {
                    return false;
                }
            },
            None => {},
        }
        match self.until {
            Some(t) => line.timestamp <= t,
            None => true,
        }
    }

    /// Whether a line has the group, the time and the text asked for, given the
    /// lowercase equivalents of its content and of the pattern.
    pub fn matches_lowered(&self, line: &LogLine, content: &str, pattern: &Option<String>) -> (r:
        bool)
        ensures
            r == (self@.in_scope(line@) && (pattern matches Some(p) ==> text::contains(
                content@,
                p@,
            ))),
    {
        self.in_scope(line) && match pattern {
            Some(p) => text::contains_text(content, p.as_str()),
            None => true,
        }
    }
}

/// Result of a log query including pagination metadata.
#[derive(Debug)]
pub struct LogQueryResult {
    /// The matching log lines.
    pub logs: Vec<LogLine>,
    /// Total number of matching logs (before pagination).
    pub total_count: usize,
    /// Whether there are more results after this page.
    pub has_more: bool,
    /// The offset used for this query.
    pub offset: usize,
}

impl LogQueryResult {
    /// Create an empty result.
    pub fn empty() -> (r: Self)
        ensures
            r.logs@ == Seq::<LogLine>::empty(),
            r.total_count == 0,
            !r.has_more,
            r.offset == 0,
    {
        LogQueryResult { logs: Vec::new(), total_count: 0, has_more: false, offset: 0 }
    }
}

/// Statistics about the log storage.
#[derive(Debug, Clone, Copy)]
pub struct LogStorageStats {
    /// Total number of log lines stored.
    pub total_lines: usize,
    /// Number of distinct processes with logs.
    pub process_count: usize,
    /// Approximate memory usage in bytes.
    pub memory_bytes: usize,
    /// Oldest log timestamp (if any logs exist).
    pub oldest_timestamp: Option<u64>,
    /// Newest log timestamp (if any logs exist).
    pub newest_timestamp: Option<u64>,
    /// Memory limit in bytes (if configured).
    pub memory_limit: Option<usize>,
    /// Maximum lines per process.
    pub max_lines_per_process: usize,
}

impl Default for LogStorageStats {
    fn default() -> (r: Self)
        ensures
            r == (LogStorageStats {
                total_lines: 0,
                process_count: 0,
                memory_bytes: 0,
                oldest_timestamp: None,
                newest_timestamp: None,
                memory_limit: None,
                max_lines_per_process: 0,
            }),
    {
        LogStorageStats {
            total_lines: 0,
            process_count: 0,
            memory_bytes: 0,
            oldest_timestamp: None,
            newest_timestamp: None,
            memory_limit: None,
            max_lines_per_process: 0,
        }
    }
}

/// Errors of a log storage backend.
#[derive(Debug)]
pub enum LogStorageError {
    /// The backend could not be opened.
    Open(String),
    /// The schema could not be set up or is not one that is known.
    SchemaInit(String),
    /// A write failed.
    Write(String),
    /// A query failed.
    Query(String),
    /// A retention sweep failed.
    Retention(String),
}

impl LogStorageError {
    /// The text of the error.
    pub open spec fn says(self) -> Text {
        match self {
            LogStorageError::Open(m) => m@,
            LogStorageError::SchemaInit(m) => m@,
            LogStorageError::Write(m) => m@,
            LogStorageError::Query(m) => m@,
            LogStorageError::Retention(m) => m@,
        }
    }

    /// What went wrong, in words.
    pub fn message(&self) -> (r: &str)
        ensures
            r@ == self.says(),
    {
        match self {
            LogStorageError::Open(m) => m.as_str(),
            LogStorageError::SchemaInit(m) => m.as_str(),
            LogStorageError::Write(m) => m.as_str(),
            LogStorageError::Query(m) => m.as_str(),
            LogStorageError::Retention(m) => m.as_str(),
        }
    }
}

/// Trait for log storage backends.
///
/// All read and write methods return a `Result`. The in-memory backend never
/// fails; a persistent backend can fail on open, schema init, write, query,
/// lock timeout or retention.
pub trait LogStorage: Sized {
    /// Whether the storage is in a state to work on.
    spec fn wf(&self) -> bool;

    /// Whether the lines can be counted beside those that are stored.
    spec fn admits(&self, logs: Seq<LogModel>) -> bool;

    /// Push a log line to storage. The storage may apply eviction policies if
    /// limits are exceeded.
    fn push(&mut self, log: LogLine) -> (r: Result<(), LogStorageError>)
        requires
            old(self).wf(),
            old(self).admits(seq![log@]),
        ensures
            final(self).wf(),
    ;

    /// Push a batch of log lines in one operation.
    fn push_batch(&mut self, logs: Vec<LogLine>) -> (r: Result<(), LogStorageError>)
        requires
            old(self).wf(),
            old(self).admits(logs.deep_view()),
        ensures
            final(self).wf(),
    ;

    /// Get the most recent `limit` logs of a process, or of all processes for
    /// "*", oldest first.
    fn get(&self, name: &str, limit: Option<usize>) -> (r: Result<Vec<LogLine>, LogStorageError>)
        requires
            self.wf(),
    ;

    /// Query logs with filtering and pagination.
    fn query(&self, query: LogQuery) -> (r: Result<LogQueryResult, LogStorageError>)
        requires
            self.wf(),
    ;

    /// Get statistics about the storage.
    fn stats(&self) -> (r: Result<LogStorageStats, LogStorageError>)
        requires
            self.wf(),
    ;

    /// Clear all logs.
    fn clear(&mut self) -> (r: Result<(), LogStorageError>)
        requires
            old(self).wf(),
        ensures
            final(self).wf(),
    ;

    /// Clear logs for a specific process.
    fn clear_process(&mut self, name: &str) -> (r: Result<(), LogStorageError>)
        requires
            old(self).wf(),
        ensures
            final(self).wf(),
    ;

    /// Periodic flush hook called between drain cycles.
    fn flush(&mut self) -> (r: Result<(), LogStorageError>)
        requires
            old(self).wf(),
        ensures
            final(self).wf(),
    ;

    /// Shutdown flush hook.
    fn flush_now(&mut self) -> (r: Result<(), LogStorageError>)
        requires
            old(self).wf(),
        ensures
            final(self).wf(),
    ;

    /// Run an explicit retention sweep.
    fn enforce_retention(&mut self) -> (r: Result<(), LogStorageError>)
        requires
            old(self).wf(),
        ensures
            final(self).wf(),
    ;

    /// Get the current memory limit in bytes, if set.
    fn memory_limit(&self) -> (r: Option<usize>);

    /// Set the maximum memory budget in bytes and evict what is over it.
    /// Returns the previous limit, if any.
    fn set_memory_limit(&mut self, bytes: usize) -> (r: Option<usize>)
        requires
            old(self).wf(),
        ensures
            final(self).wf(),
    ;

    /// Get the current max lines per process.
    fn max_lines_per_process(&self) -> (r: usize);

    /// Set the maximum logs per process and evict what is over it. Returns the
    /// previous limit.
    fn set_max_lines_per_process(&mut self, max: usize) -> (r: usize)
        requires
            old(self).wf(),
        ensures
            final(self).wf(),
    ;
}

} // verus!
