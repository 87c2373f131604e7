//! In-memory log storage.
//!
//! Lines come in one of two ways: pushed directly, or submitted and then
//! drained. They are kept per process in ring buffers, under a limit of lines
//! per process and a limit of memory over all of them, and each one is handed on
//! to the subscribers.
//!
//! The key invariant is: lines that were submitted are available via `get()`
//! after calling `drain()`.

use crate::daemon::api::{LogLine, LogModel, LogSource};
use crate::daemon::log_model::{self, Buffers, StoreModel};
use crate::daemon::log_storage::{
    LogQuery, LogQueryResult, LogStorage, LogStorageError, LogStorageStats,
};
use crate::strmap::StrMap;
use crate::text::{self, byte_len_of, str_eq, to_lowercase, Text};
use std::collections::VecDeque;
use vstd::prelude::*;

verus! {

/// Default maximum log lines to keep per process.
pub const DEFAULT_MAX_LINES_PER_PROCESS: usize = 100_000;

/// Default memory limit (100 MB).
pub const DEFAULT_MEMORY_LIMIT: usize = 104_857_600;

/// How many lines may wait to be submitted, unless said otherwise.
pub const DEFAULT_CAPACITY: usize = 1024;

/// The ring buffer of a process.
struct Buffer {
    lines: VecDeque<LogLine>,
}

impl DeepView for Buffer {
    type V = Seq<LogModel>;

    closed spec fn deep_view(&self) -> Seq<LogModel> {
        Seq::new(self.lines@.len(), |i: int| self.lines@[i]@)
    }
}

/// Log storage with per-process ring buffers.
pub struct LogStore {
    buffers: StrMap<Buffer>,
    incoming: Vec<LogLine>,
    outgoing: Vec<LogLine>,
    max_lines_per_process: usize,
    memory_limit: Option<usize>,
    estimated_memory: usize,
    capacity: usize,
}

impl View for LogStore {
    type V = StoreModel;

    closed spec fn view(&self) -> StoreModel {
        StoreModel {
            buffers: self.buffers@,
            incoming: self.incoming.deep_view(),
            outgoing: self.outgoing.deep_view(),
            max_lines: self.max_lines_per_process,
            memory_limit: self.memory_limit,
            capacity: self.capacity,
        }
    }
}

/// `slice::sort_by_key` with the timestamp as the key: the lines come by time,
/// and, as the sort is stable, lines of the same time keep their order.
#[verifier::external_body]
fn sort_by_timestamp(v: &mut Vec<LogLine>)
    ensures
        final(v).deep_view() == log_model::by_time(old(v).deep_view()),
{
    v.sort_by_key(|l| l.timestamp)
}

/// Copies lines `from` up to the end.
fn lines_from(buffer: &Buffer, from: usize) -> (r: Vec<LogLine>)
    requires
        from <= buffer.deep_view().len(),
    ensures
        r.deep_view() == buffer.deep_view().skip(from as int),
{
    let mut out: Vec<LogLine> = Vec::new();
    let n = buffer.lines.len();
    let mut i: usize = from;
    while i < n
        invariant
            from <= i <= n,
            n == buffer.lines@.len(),
            out@.len() == i - from,
            forall|j: int| 0 <= j < out@.len() ==> (#[trigger] out@[j])@ == buffer.lines@[from + j]@,
        decreases n - i,
    {
        out.push(buffer.lines[i].clone());
        i = i + 1;
    }
    assert(out.deep_view() =~= buffer.deep_view().skip(from as int));
    out
}

/// The last `limit` of some lines, or all of them.
fn last_lines(all: Vec<LogLine>, limit: Option<usize>) -> (r: Vec<LogLine>)
    ensures
        r.deep_view() == match limit {
            Some(n) => text::tail(all.deep_view(), n as int),
            None => all.deep_view(),
        },
{
    let mut all = all;
    match limit {
        Some(n) => {
            if n < all.len() {
                let cut = all.len() - n;
                let ghost before = all.deep_view();
                let kept = all.split_off(cut);
                assert(kept.deep_view() =~= before.skip(cut as int));
                kept
            } else {
                all
            }
        },
        None => all,
    }
}

impl LogStore {
    /// Whether the memory estimate is that of the stored lines.
    pub closed spec fn accounts(&self) -> bool {
        self.estimated_memory == log_model::held(self.buffers@)
    }

    /// The processes in the order in which they are walked to read all lines.
    pub closed spec fn walk(&self) -> Seq<Text> {
        self.buffers.keys()
    }

    /// What a reader of a process sees, or of all processes for "*".
    pub open spec fn shows(&self, name: Text) -> Seq<LogModel> {
        log_model::seen(self@.buffers, self.walk(), name)
    }

    /// The walk comes to each process once.
    fn walks(&self)
        ensures
            log_model::lists_processes(self@.buffers, self.walk()),
    {
        let _ = self.buffers.len();
    }

    /// Create a new log store with default settings.
    pub fn new() -> (r: Self)
        ensures
            r.wf(),
            r@ == (StoreModel {
                buffers: Map::empty(),
                incoming: Seq::empty(),
                outgoing: Seq::empty(),
                max_lines: DEFAULT_MAX_LINES_PER_PROCESS,
                memory_limit: Some(DEFAULT_MEMORY_LIMIT),
                capacity: DEFAULT_CAPACITY,
            }),
    {
        Self::with_capacity(DEFAULT_CAPACITY)
    }

    /// Create a new log store of which no more than `capacity` lines may wait to
    /// be submitted.
    pub fn with_capacity(capacity: usize) -> (r: Self)
        requires
            capacity > 0,
        ensures
            r.wf(),
            r@ == (StoreModel {
                buffers: Map::empty(),
                incoming: Seq::empty(),
                outgoing: Seq::empty(),
                max_lines: DEFAULT_MAX_LINES_PER_PROCESS,
                memory_limit: Some(DEFAULT_MEMORY_LIMIT),
                capacity,
            }),
    {
        let r = LogStore {
            buffers: StrMap::new(),
            incoming: Vec::new(),
            outgoing: Vec::new(),
            max_lines_per_process: DEFAULT_MAX_LINES_PER_PROCESS,
            memory_limit: Some(DEFAULT_MEMORY_LIMIT),
            estimated_memory: 0,
            capacity,
        };
        proof {
            log_model::lemma_total_empty(r.buffers@, true);
            log_model::lemma_total_empty(r.buffers@, false);
            assert(r.incoming.deep_view() =~= Seq::<LogModel>::empty());
            assert(r.outgoing.deep_view() =~= Seq::<LogModel>::empty());
        }
        r
    }

    /// Set maximum lines per process (builder pattern).
    pub fn with_max_lines_per_process(self, max: usize) -> (r: Self)
        requires
            self.wf(),
        ensures
            r.wf(),
            r@ == (StoreModel { max_lines: max, ..self@ }),
    {
        let mut store = self;
        store.max_lines_per_process = max;
        store
    }

    /// Set memory limit in bytes (builder pattern).
    pub fn with_memory_limit(self, bytes: usize) -> (r: Self)
        requires
            self.wf(),
        ensures
            r.wf(),
            r@ == (StoreModel { memory_limit: Some(bytes), ..self@ }),
    {
        let mut store = self;
        store.memory_limit = Some(bytes);
        store
    }

    /// How many lines may wait to be submitted.
    pub fn capacity(&self) -> (r: usize)
        ensures
            r == self@.capacity,
    {
        self.capacity
    }

    /// Submit a line. It becomes visible with the next `drain`.
    pub fn submit(&mut self, log: LogLine)
        requires
            old(self).wf(),
        ensures
            final(self).wf(),
            final(self)@ == (StoreModel { incoming: old(self)@.incoming.push(log@), ..old(self)@ }),
    {
        self.incoming.push(log);
        assert(self@.incoming =~= old(self)@.incoming.push(log@));
    }

    /// Hands out the lines for the subscribers.
    pub fn take_outgoing(&mut self) -> (r: Vec<LogLine>)
        requires
            old(self).wf(),
        ensures
            final(self).wf(),
            r.deep_view() == old(self)@.outgoing,
            final(self)@ == (StoreModel { outgoing: Seq::empty(), ..old(self)@ }),
    {
        let mut taken: Vec<LogLine> = Vec::new();
        std::mem::swap(&mut taken, &mut self.outgoing);
        assert(self@.outgoing =~= Seq::empty());
        taken
    }

    /// Drain the submitted lines into the buffers.
    ///
    /// This MUST be called before `get()` to ensure that submitted lines are
    /// visible: before handling any API request, and periodically in the main
    /// loop.
    pub fn drain(&mut self) -> (r: Result<(), LogStorageError>)
        requires
            old(self).wf(),
            old(self)@.admits(old(self)@.incoming),
        ensures
            final(self).wf(),
            r is Ok,
            (StoreModel { incoming: Seq::empty(), ..old(self)@ }).pushed_all(
                old(self)@.incoming,
                final(self)@,
            ),
    {
        let mut batch: Vec<LogLine> = Vec::new();
        std::mem::swap(&mut batch, &mut self.incoming);
        assert(self@.incoming =~= Seq::empty());
        assert(self@ =~= (StoreModel { incoming: Seq::empty(), ..old(self)@ }));
        if batch.len() == 0 {
            assert(old(self)@.incoming.len() == 0);
            return Ok(());
        }
        self.push_batch(batch)
    }

    /// Drain the submitted lines and run the shutdown-time flush hook.
    pub fn drain_and_flush_now(&mut self) -> (r: Result<(), LogStorageError>)
        requires
            old(self).wf(),
            old(self)@.admits(old(self)@.incoming),
        ensures
            final(self).wf(),
            r is Ok,
            (StoreModel { incoming: Seq::empty(), ..old(self)@ }).pushed_all(
                old(self)@.incoming,
                final(self)@,
            ),
    {
        match self.drain() {
            Ok(()) => self.flush_now(),
            Err(e) => Err(e),
        }
    }

    /// Estimate the memory size of a log line in bytes.
    pub fn estimate_log_size(log: &LogLine) -> (r: usize)
        requires
            log_model::log_size(log@) <= usize::MAX,
        ensures
            r == log_model::log_size(log@),
    {
        let group: usize = match &log.group {
            Some(g) => byte_len_of(g.as_str()),
            None => 0,
        };
        core::mem::size_of::<LogLine>() + byte_len_of(log.process.as_str()) + byte_len_of(
            log.content.as_str(),
        ) + group
    }

    /// Stores a line, trims, and hands it on.
    fn push_internal(&mut self, log: LogLine)
        requires
            old(self).wf(),
            old(self)@.admits(seq![log@]),
        ensures
            final(self).wf(),
            old(self)@.pushed(log@, final(self)@),
            log_model::held(final(self)@.buffers) <= log_model::held(old(self)@.buffers)
                + log_model::log_size(log@),
            log_model::count(final(self)@.buffers) <= log_model::count(old(self)@.buffers) + 1,
    {
        let ghost before = self.buffers@;
        let ghost max = self.max_lines_per_process as int;
        proof {
            log_model::lemma_lines_size_push(Seq::empty(), log@);
            assert(Seq::<LogModel>::empty().push(log@) =~= seq![log@]);
        }
        let log_size = Self::estimate_log_size(&log);
        self.estimated_memory = self.estimated_memory + log_size;
        let name = log.process.clone();
        let copy = log.clone();
        let mut buffer = match self.buffers.remove(name.as_str()) {
            Some(buffer) => buffer,
            None => Buffer { lines: VecDeque::new() },
        };
        let ghost mine = log_model::of_process(before, name@);
        let ghost others = before.remove(name@);
        assert(buffer.deep_view() =~= mine);
        buffer.lines.push_back(log);
        assert(buffer.deep_view() =~= mine.push(log@));
        proof {
            log_model::lemma_lines_size_push(mine, log@);
            if before.dom().contains(name@) {
                log_model::lemma_total_remove(before, true, name@);
            } else {
                assert(others =~= before);
            }
            assert(mine.push(log@).skip(0) =~= mine.push(log@));
            assert(buffer.lines.len() == mine.len() + 1);
        }
        let mut gone: usize = 0;
        while buffer.lines.len() > self.max_lines_per_process
            invariant
                max == self.max_lines_per_process,
                self@ == (StoreModel { buffers: others, ..old(self)@ }),
                gone <= mine.len() + 1,
                gone == 0 || mine.len() + 1 - gone >= max,
                buffer.deep_view() == mine.push(log@).skip(gone as int),
                self.estimated_memory == log_model::held(others) + log_model::lines_size(
                    buffer.deep_view(),
                ),
                mine.len() + 1 <= usize::MAX,
            decreases buffer.lines@.len(),
        {
            let ghost kept = buffer.deep_view();
            let ghost first = buffer.lines@[0];
            match buffer.lines.pop_front() {
                Some(evicted) => {
                    proof {
                        log_model::lemma_lines_size_first(kept);
                        assert(kept[0] == evicted@);
                        assert(buffer.deep_view() =~= kept.drop_first());
                        assert(kept.drop_first() =~= mine.push(log@).skip(gone + 1));
                    }
                    let freed = Self::estimate_log_size(&evicted);
                    self.estimated_memory = self.estimated_memory.saturating_sub(freed);
                    gone = gone + 1;
                },
                None => {},
            }
        }
        assert(buffer.deep_view() =~= text::tail(mine.push(log@), max));
        let ghost kept = buffer.deep_view();
        self.buffers.insert(name, buffer);
        proof {
            log_model::lemma_total_insert(before, true, name@, kept);
            log_model::lemma_filed(before, log@, max);
            assert(others.insert(name@, kept) =~= log_model::filed(before, log@, max));
        }
        self.maybe_evict_for_memory();
        self.outgoing.push(copy);
        assert(self@.outgoing =~= old(self)@.outgoing.push(log@));
    }

    /// A process with the most lines, if there are any lines.
    fn longest_process(&self) -> (r: Option<String>)
        ensures
            match r {
                Some(p) => log_model::longest(self.buffers@, p@),
                None => log_model::no_lines(self.buffers@),
            },
    {
        let n = self.buffers.len();
        let ghost keys = self.buffers.keys();
        let mut best: Option<usize> = None;
        let mut most: usize = 0;
        let mut i: usize = 0;
        while i < n
            invariant
                0 <= i <= n,
                n == keys.len(),
                keys == self.buffers.keys(),
                self.buffers@.dom() == keys.to_set(),
                match best {
                    Some(b) => b < i && most > 0 && self.buffers@[keys[b as int]].len() == most,
                    None => most == 0,
                },
                forall|j: int| 0 <= j < i ==> (#[trigger] self.buffers@[keys[j]]).len() <= most,
            decreases n - i,
        {
            let buffer = self.buffers.value_at(i);
            assert(buffer.deep_view().len() == buffer.lines@.len());
            if buffer.lines.len() > most {
                most = buffer.lines.len();
                best = Some(i);
            }
            i = i + 1;
        }
        assert forall|q: Text| #[trigger] self.buffers@.dom().contains(q) implies self.buffers@[q].len()
            <= most by {
            let j = keys.index_of(q);
            assert(keys[j] == q);
            assert(self.buffers@[keys[j]].len() <= most);
        }
        match best {
            Some(b) => Some(self.buffers.key_at(b).clone()),
            None => None,
        }
    }

    /// Evict logs if the memory limit is exceeded: the oldest logs of processes
    /// with the most logs go until memory is under the target.
    fn maybe_evict_for_memory(&mut self)
        requires
            old(self).wf(),
        ensures
            final(self).wf(),
            log_model::evicted(old(self)@.buffers, old(self)@.memory_limit, final(self)@.buffers),
            final(self)@ == (StoreModel { buffers: final(self)@.buffers, ..old(self)@ }),
            log_model::held(final(self)@.buffers) <= log_model::held(old(self)@.buffers),
            log_model::count(final(self)@.buffers) <= log_model::count(old(self)@.buffers),
    {
        let ghost before = self.buffers@;
        let limit: usize = match self.memory_limit {
            Some(limit) => limit,
            None => {
                return ;
            },
        };
        let threshold: usize = limit / 10 * 9 + limit % 10 * 9 / 10;
        let target: usize = limit / 10 * 8 + limit % 10 * 8 / 10;
        assert(threshold == log_model::threshold(limit));
        assert(target == log_model::target(limit));
        if self.estimated_memory <= threshold {
            return ;
        }
        let ghost mut path: Seq<Text> = Seq::empty();
        let mut more = true;
        while more && self.estimated_memory > target
            invariant
                self.wf(),
                before.dom().finite(),
                before == old(self)@.buffers,
                self@ == (StoreModel { buffers: self@.buffers, ..old(self)@ }),
                self@.buffers == log_model::drop_each(before, path),
                log_model::fair(before, target as int, path),
                !more ==> log_model::no_lines(self@.buffers),
                log_model::held(self@.buffers) <= log_model::held(before),
                log_model::count(self@.buffers) <= log_model::count(before),
            decreases more as int, log_model::count(self@.buffers),
        {
            match self.longest_process() {
                Some(process_name) => {
                    let ghost now = self.buffers@;
                    match self.buffers.remove(process_name.as_str()) {
                        Some(buffer) => {
                            let mut buffer = buffer;
                            let ghost all = buffer.deep_view();
                            proof {
                                log_model::lemma_drop_oldest(now, process_name@);
                                log_model::lemma_total_remove(now, true, process_name@);
                                log_model::lemma_lines_size_first(all);
                            }
                            match buffer.lines.pop_front() {
                                Some(evicted) => {
                                    assert(evicted@ == all[0]);
                                    let freed = Self::estimate_log_size(&evicted);
                                    self.estimated_memory = self.estimated_memory.saturating_sub(
                                        freed,
                                    );
                                },
                                None => {},
                            }
                            assert(buffer.deep_view() =~= all.drop_first());
                            self.buffers.insert(process_name, buffer);
                            proof {
                                assert(self.buffers@ =~= log_model::drop_oldest(now, process_name@));
                                let longer = path.push(process_name@);
                                assert(longer.drop_last() =~= path);
                                path = longer;
                            }
                        },
                        None => {
                            more = false;
                        },
                    }
                },
                None => {
                    more = false;
                },
            }
        }
        assert(log_model::settles(before, target as int, path));
    }

    /// All lines by time.
    fn get_all_internal(&self) -> (r: Vec<LogLine>)
        ensures
            r.deep_view() == self.shows("*"@),
    {
        let n = self.buffers.len();
        let ghost keys = self.buffers.keys();
        let mut all: Vec<LogLine> = Vec::new();
        let mut i: usize = 0;
        assert(keys.take(0) =~= Seq::empty());
        assert(all.deep_view() =~= Seq::empty());
        while i < n
            invariant
                0 <= i <= n,
                n == keys.len(),
                keys == self.buffers.keys(),
                all.deep_view() == log_model::strung(self.buffers@, keys.take(i as int)),
            decreases n - i,
        {
            let buffer = self.buffers.value_at(i);
            let mut lines = lines_from(buffer, 0);
            let ghost before = all.deep_view();
            let ghost added = lines.deep_view();
            all.append(&mut lines);
            proof {
                assert(added =~= buffer.deep_view());
                assert(all.deep_view() =~= before + added);
                assert(keys.take(i + 1).drop_last() =~= keys.take(i as int));
                assert(keys.take(i + 1).last() == keys[i as int]);
            }
            i = i + 1;
        }
        assert(keys.take(n as int) =~= keys);
        sort_by_timestamp(&mut all);
        all
    }

    /// The lines of a process by time.
    fn get_process_internal(&self, name: &str) -> (r: Vec<LogLine>)
        requires
            name@ != "*"@,
        ensures
            r.deep_view() == self.shows(name@),
    {
        let mut lines: Vec<LogLine> = match self.buffers.get(name) {
            Some(buffer) => {
                let r = lines_from(buffer, 0);
                assert(r.deep_view() =~= buffer.deep_view());
                r
            },
            None => {
                let r: Vec<LogLine> = Vec::new();
                assert(r.deep_view() =~= Seq::empty());
                r
            },
        };
        sort_by_timestamp(&mut lines);
        lines
    }

    /// The lines that match a query, of those that the reader sees.
    fn query_internal(&self, query: &LogQuery) -> (r: Vec<LogLine>)
        ensures
            r.deep_view() == log_model::matching(
                query@,
                self.shows(query@.effective_process()),
            ),
    {
        let logs = if query.is_all_processes() {
            self.get_all_internal()
        } else {
            self.get_process_internal(query.effective_process())
        };
        let search: Option<String> = match &query.search {
            Some(pattern) => Some(to_lowercase(pattern.as_str())),
            None => None,
        };
        let ghost all = logs.deep_view();
        let ghost keep = |l: LogModel| query@.matches_line(l);
        let mut out: Vec<LogLine> = Vec::new();
        let n = logs.len();
        let mut i: usize = 0;
        proof {
            reveal(Seq::filter);
            assert(all.take(0) =~= Seq::empty());
            assert(out.deep_view() =~= Seq::empty());
        }
        while i < n
            invariant
                0 <= i <= n,
                n == logs@.len(),
                all == logs.deep_view(),
                keep == (|l: LogModel| query@.matches_line(l)),
                match (search, query.search) {
                    (Some(s), Some(p)) => s@ == text::lowercase(p@),
                    (None, None) => true,
                    _ => false,
                },
                out.deep_view() == all.take(i as int).filter(keep),
            decreases n - i,
        {
            let line = &logs[i];
            let content = match &search {
                Some(_) => to_lowercase(line.content.as_str()),
                None => String::new(),
            };
            let found = query.matches_lowered(line, content.as_str(), &search);
            proof {
                reveal(Seq::filter);
                assert(all.take(i + 1).drop_last() =~= all.take(i as int));
                assert(all.take(i + 1).last() == line@);
                assert(found == keep(line@));
            }
            let ghost before = out.deep_view();
            if found {
                out.push(line.clone());
                assert(out.deep_view() =~= before.push(line@));
            }
            i = i + 1;
        }
        assert(all.take(n as int) =~= all);
        assert(out.deep_view() == log_model::matching(query@, all));
        out
    }

    /// The result of a query, given what a persistent backend answers, if one is
    /// attached: then that counts, be it an error, and the buffers are not asked.
    pub fn query_with(
        &self,
        query: LogQuery,
        persisted: Option<Result<LogQueryResult, LogStorageError>>,
    ) -> (r: Result<LogQueryResult, LogStorageError>)
        requires
            self.wf(),
        ensures
            match persisted {
                Some(answer) => r == answer,
                None => r matches Ok(result) && log_model::answers(
                    query@,
                    self.shows(query@.effective_process()),
                    result,
                ),
            },
            log_model::lists_processes(self@.buffers, self.walk()),
    {
        match persisted {
            Some(answer) => {
                self.walks();
                answer
            },
            None => self.query(query),
        }
    }

    /// Statistics, given those of a persistent backend, if one is attached: then the
    /// aggregates are its own, since the buffers hold a recent slice only, while the
    /// memory fields stay theirs.
    pub fn stats_with(
        &self,
        persisted: Option<Result<LogStorageStats, LogStorageError>>,
    ) -> (r: Result<LogStorageStats, LogStorageError>)
        requires
            self.wf(),
        ensures
            match persisted {
                Some(Ok(p)) => r matches Ok(stats) && {
                    &&& stats.total_lines == p.total_lines
                    &&& stats.process_count == p.process_count
                    &&& stats.memory_bytes == log_model::held(self@.buffers)
                    &&& stats.oldest_timestamp == p.oldest_timestamp
                    &&& stats.newest_timestamp == p.newest_timestamp
                    &&& stats.memory_limit == self@.memory_limit
                    &&& stats.max_lines_per_process == self@.max_lines
                },
                Some(Err(e)) => r == Err::<LogStorageStats, LogStorageError>(e),
                None => r matches Ok(stats) && {
                    &&& stats.total_lines == log_model::count(self@.buffers)
                    &&& stats.process_count == log_model::speaking(self@.buffers).len()
                    &&& stats.memory_bytes == log_model::held(self@.buffers)
                    &&& log_model::is_oldest(self@.buffers, stats.oldest_timestamp)
                    &&& log_model::is_newest(self@.buffers, stats.newest_timestamp)
                    &&& stats.memory_limit == self@.memory_limit
                    &&& stats.max_lines_per_process == self@.max_lines
                },
            },
    {
        match persisted {
            Some(Ok(p)) => Ok(
                LogStorageStats {
                    total_lines: p.total_lines,
                    process_count: p.process_count,
                    memory_bytes: self.estimated_memory,
                    oldest_timestamp: p.oldest_timestamp,
                    newest_timestamp: p.newest_timestamp,
                    memory_limit: self.memory_limit,
                    max_lines_per_process: self.max_lines_per_process,
                },
            ),
            Some(Err(e)) => Err(e),
            None => self.stats(),
        }
    }
}

/// The bytes that the lines of a buffer are estimated to take.
fn buffer_size(buffer: &Buffer) -> (r: usize)
    requires
        log_model::lines_size(buffer.deep_view()) <= usize::MAX,
    ensures
        r == log_model::lines_size(buffer.deep_view()),
{
    let ghost all = buffer.deep_view();
    let n = buffer.lines.len();
    let mut size: usize = 0;
    let mut i: usize = 0;
    assert(all.take(0) =~= Seq::empty());
    while i < n
        invariant
            0 <= i <= n,
            n == buffer.lines@.len(),
            all == buffer.deep_view(),
            log_model::lines_size(all) <= usize::MAX,
            size == log_model::lines_size(all.take(i as int)),
        decreases n - i,
    {
        proof {
            let next = all.take(i + 1);
            assert(next.drop_last() =~= all.take(i as int));
            assert(all =~= next + all.skip(i + 1));
            log_model::lemma_lines_size_add(next, all.skip(i + 1));
        }
        size = size + LogStore::estimate_log_size(&buffer.lines[i]);
        i = i + 1;
    }
    assert(all.take(n as int) =~= all);
    size
}

impl LogStore {
    /// The number of processes that have lines.
    fn count_processes(&self) -> (r: usize)
        ensures
            r == log_model::speaking(self@.buffers).len(),
    {
        let n = self.buffers.len();
        let ghost keys = self.buffers.keys();
        let ghost all = self.buffers@;
        let ghost mut found: Set<Text> = Set::empty();
        let mut total: usize = 0;
        let mut i: usize = 0;
        while i < n
            invariant
                0 <= i <= n,
                n == keys.len(),
                keys == self.buffers.keys(),
                all == self.buffers@,
                keys.no_duplicates(),
                all.dom() == keys.to_set(),
                total <= i,
                found.finite(),
                total == found.len(),
                forall|k: Text| #[trigger]
                    found.contains(k) <==> exists|j: int|
                        0 <= j < i && #[trigger] keys[j] == k && all[k].len() > 0,
            decreases n - i,
        {
            let ghost key = keys[i as int];
            let ghost before = found;
            let buffer = self.buffers.value_at(i);
            if buffer.lines.len() > 0 {
                assert(all[key].len() > 0);
                proof {
                    if found.contains(key) {
                        let j = choose|j: int| 0 <= j < i && #[trigger] keys[j] == key;
                        assert(keys[j] != keys[i as int]);
                    }
                    found = found.insert(key);
                }
                total = total + 1;
            }
            proof {
                assert forall|k: Text| #[trigger] found.contains(k) <==> exists|j: int|
                    0 <= j < i + 1 && #[trigger] keys[j] == k && all[k].len() > 0 by {
                    if found.contains(k) {
                        if before.contains(k) {
                            let j = choose|j: int|
                                0 <= j < i && #[trigger] keys[j] == k && all[k].len() > 0;
                            assert(keys[j] == k);
                        } else {
                            assert(keys[i as int] == k);
                        }
                    }
                    if exists|j: int|
                        0 <= j < i + 1 && #[trigger] keys[j] == k && all[k].len() > 0 {
                        let j = choose|j: int|
                            0 <= j < i + 1 && #[trigger] keys[j] == k && all[k].len() > 0;
                        if j < i {
                            assert(before.contains(k));
                        }
                    }
                }
            }
            i = i + 1;
        }
        proof {
            assert forall|k: Text| #[trigger] found.contains(k) <==> log_model::speaking(
                all,
            ).contains(k) by {
                if all.dom().contains(k) && all[k].len() > 0 {
                    assert(keys.contains(k));
                    let j = keys.index_of(k);
                    assert(keys[j] == k);
                }
                if found.contains(k) {
                    let j = choose|j: int|
                        0 <= j < n && #[trigger] keys[j] == k && all[k].len() > 0;
                    assert(keys.contains(keys[j]));
                }
            }
            assert(found =~= log_model::speaking(all));
        }
        total
    }

    /// The number of stored lines.
    fn count_lines(&self) -> (r: usize)
        requires
            self.wf(),
        ensures
            r == log_model::count(self@.buffers),
    {
        let n = self.buffers.len();
        let ghost keys = self.buffers.keys();
        let ghost all = self.buffers@;
        let ghost mut rest = all;
        let mut total: usize = 0;
        let mut i: usize = 0;
        while i < n
            invariant
                0 <= i <= n,
                n == keys.len(),
                keys == self.buffers.keys(),
                keys.no_duplicates(),
                all == self.buffers@,
                all.dom() == keys.to_set(),
                all.dom().finite(),
                rest.dom().finite(),
                forall|k: Text| #[trigger]
                    rest.dom().contains(k) <==> all.dom().contains(k) && !keys.take(
                        i as int,
                    ).contains(k),
                forall|k: Text| #[trigger] rest.dom().contains(k) ==> rest[k] == all[k],
                log_model::count(all) <= usize::MAX,
                total + log_model::count(rest) == log_model::count(all),
            decreases n - i,
        {
            let buffer = self.buffers.value_at(i);
            let ghost k = keys[i as int];
            proof {
                assert(keys.contains(k));
                assert(!keys.take(i as int).contains(k)) by {
                    if keys.take(i as int).contains(k) {
                        let j = keys.take(i as int).index_of(k);
                        assert(keys[j] == k);
                    }
                }
                assert(rest.dom().contains(k));
                log_model::lemma_total_remove(rest, false, k);
                assert(buffer.deep_view().len() == buffer.lines@.len());
                assert(keys.take(i + 1) =~= keys.take(i as int).push(k));
                assert forall|q: Text| #[trigger] rest.remove(k).dom().contains(q) <==> all.dom().contains(
                    q,
                ) && !keys.take(i + 1).contains(q) by {
                    let before = keys.take(i as int);
                    if before.contains(q) {
                        let j = before.index_of(q);
                        assert(before.push(k)[j] == q);
                    }
                    assert(before.push(k)[i as int] == k);
                    if keys.take(i + 1).contains(q) && q != k {
                        let j = keys.take(i + 1).index_of(q);
                        assert(before[j] == q);
                    }
                }
                rest = rest.remove(k);
            }
            total = total + buffer.lines.len();
            i = i + 1;
        }
        proof {
            assert forall|k: Text| #[trigger] rest.dom().contains(k) implies rest[k].len() == 0 by {
                assert(keys.take(n as int) =~= keys);
                assert(keys.contains(k));
            }
            log_model::lemma_total_empty(rest, false);
        }
        total
    }

    /// The least and the greatest timestamp that are stored.
    fn time_span(&self) -> (r: (Option<u64>, Option<u64>))
        ensures
            log_model::is_oldest(self@.buffers, r.0),
            log_model::is_newest(self@.buffers, r.1),
    {
        let n = self.buffers.len();
        let ghost keys = self.buffers.keys();
        let ghost all = self.buffers@;
        let mut span: Option<(u64, u64)> = None;
        let ghost mut low: (Text, int) = (Seq::empty(), 0);
        let ghost mut high: (Text, int) = (Seq::empty(), 0);
        let mut i: usize = 0;
        while i < n
            invariant
                0 <= i <= n,
                n == keys.len(),
                keys == self.buffers.keys(),
                all == self.buffers@,
                all.dom() == keys.to_set(),
                match span {
                    Some((oldest, newest)) => {
                        &&& all.dom().contains(low.0) && 0 <= low.1 < all[low.0].len()
                            && all[low.0][low.1].timestamp == oldest
                        &&& all.dom().contains(high.0) && 0 <= high.1 < all[high.0].len()
                            && all[high.0][high.1].timestamp == newest
                        &&& forall|j: int, m: int|
                            0 <= j < i && 0 <= m < all[keys[j]].len() ==> oldest <= (
                            #[trigger] all[keys[j]][m]).timestamp <= newest
                    },
                    None => forall|j: int| 0 <= j < i ==> (#[trigger] all[keys[j]]).len() == 0,
                },
            decreases n - i,
        {
            let buffer = self.buffers.value_at(i);
            let ghost key = keys[i as int];
            let len = buffer.lines.len();
            let mut m: usize = 0;
            while m < len
                invariant
                    0 <= m <= len,
                    0 <= i < n,
                    n == keys.len(),
                    key == keys[i as int],
                    all.dom().contains(key),
                    len == buffer.lines@.len(),
                    buffer.deep_view() == all[key],
                    match span {
                        Some((oldest, newest)) => {
                            &&& all.dom().contains(low.0) && 0 <= low.1 < all[low.0].len()
                                && all[low.0][low.1].timestamp == oldest
                            &&& all.dom().contains(high.0) && 0 <= high.1 < all[high.0].len()
                                && all[high.0][high.1].timestamp == newest
                            &&& forall|j: int, k: int|
                                0 <= j < i && 0 <= k < all[keys[j]].len() ==> oldest <= (
                                #[trigger] all[keys[j]][k]).timestamp <= newest
                            &&& forall|k: int|
                                0 <= k < m ==> oldest <= (#[trigger] all[key][k]).timestamp
                                    <= newest
                        },
                        None => m == 0 && (forall|j: int|
                            0 <= j < i ==> (#[trigger] all[keys[j]]).len() == 0),
                    },
                decreases len - m,
            {
                let t: u64 = buffer.lines[m].timestamp;
                assert(all[key][m as int].timestamp == t);
                match span {
                    Some((oldest, newest)) => {
                        if t < oldest {
                            proof {
                                low = (key, m as int);
                            }
                            if t > newest {
                                proof {
                                    high = (key, m as int);
                                }
                                span = Some((t, t));
                            } else {
                                span = Some((t, newest));
                            }
                        } else if t > newest {
                            proof {
                                high = (key, m as int);
                            }
                            span = Some((oldest, t));
                        }
                    },
                    None => {
                        proof {
                            low = (key, m as int);
                            high = (key, m as int);
                        }
                        span = Some((t, t));
                    },
                }
                m = m + 1;
            }
            i = i + 1;
        }
        proof {
            assert forall|k: Text| #[trigger] all.dom().contains(k) implies exists|j: int|
                0 <= j < n && #[trigger] keys[j] == k by {
                let j = keys.index_of(k);
                assert(keys[j] == k);
            }
        }
        match span {
            Some((oldest, newest)) => {
                proof {
                    assert forall|k: Text, m: int|
                        all.dom().contains(k) && 0 <= m < all[k].len() implies oldest <= (
                    #[trigger] all[k][m]).timestamp <= newest by {
                        let j = choose|j: int| 0 <= j < n && #[trigger] keys[j] == k;
                        assert(all[keys[j]][m].timestamp == all[k][m].timestamp);
                    }
                    assert(all[low.0][low.1].timestamp == oldest);
                    assert(all[high.0][high.1].timestamp == newest);
                }
                (Some(oldest), Some(newest))
            },
            None => {
                assert forall|k: Text| #[trigger] all.dom().contains(k) implies all[k].len() == 0 by {
                    let j = choose|j: int| 0 <= j < n && #[trigger] keys[j] == k;
                    assert(all[keys[j]].len() == 0);
                }
                (None, None)
            },
        }
    }

    /// Each process keeps its last `max` lines.
    fn trim_all(&mut self, max: usize)
        requires
            old(self).wf(),
            old(self)@.max_lines == max,
        ensures
            final(self).wf(),
            final(self)@ == old(self)@.trimmed(max),
    {
        let n = self.buffers.len();
        let ghost before = self.buffers@;
        let names = self.process_names();
        let ghost keys = text::texts(names@);
        let mut i: usize = 0;
        while i < n
            invariant
                0 <= i <= n,
                n == keys.len(),
                keys == text::texts(names@),
                keys.no_duplicates(),
                before.dom() == keys.to_set(),
                before == old(self)@.buffers,
                self.wf(),
                max == self.max_lines_per_process,
                self@ == (StoreModel { buffers: self@.buffers, ..old(self)@ }),
                self@.buffers.dom() == before.dom(),
                forall|j: int|
                    0 <= j < n ==> #[trigger] self@.buffers[keys[j]] == if j < i {
                        text::tail(before[keys[j]], max as int)
                    } else {
                        before[keys[j]]
                    },
            decreases n - i,
        {
            let ghost now = self.buffers@;
            assert(keys[i as int] == names@[i as int]@);
            assert(keys.contains(keys[i as int]));
            self.trim(names[i].as_str(), max);
            proof {
                assert forall|j: int| 0 <= j < n implies #[trigger] self@.buffers[keys[j]] == if j
                    < i + 1 {
                    text::tail(before[keys[j]], max as int)
                } else {
                    before[keys[j]]
                } by {
                    assert(now[keys[j]] == if j < i {
                        text::tail(before[keys[j]], max as int)
                    } else {
                        before[keys[j]]
                    });
                    if j != i {
                        assert(keys[j] != keys[i as int]);
                    }
                }
                assert(self@.buffers.dom() =~= before.dom());
            }
            i = i + 1;
        }
        proof {
            let want = old(self)@.trimmed(max);
            assert forall|k: Text| #[trigger] before.dom().contains(k) implies self@.buffers[k]
                == want.buffers[k] by {
                let j = keys.index_of(k);
                assert(keys[j] == k);
                assert(self@.buffers[keys[j]] == text::tail(before[keys[j]], max as int));
            }
            assert(self@.buffers =~= want.buffers);
        }
    }

    /// The processes, in the order in which they are stored.
    fn process_names(&self) -> (r: Vec<String>)
        ensures
            text::texts(r@) == self.buffers.keys(),
    {
        let n = self.buffers.len();
        let mut out: Vec<String> = Vec::new();
        let mut i: usize = 0;
        while i < n
            invariant
                0 <= i <= n,
                n == self.buffers.keys().len(),
                out@.len() == i,
                forall|j: int| 0 <= j < i ==> (#[trigger] out@[j])@ == self.buffers.keys()[j],
            decreases n - i,
        {
            out.push(self.buffers.key_at(i).clone());
            i = i + 1;
        }
        assert(text::texts(out@) =~= self.buffers.keys());
        out
    }

    /// A process keeps its last `max` lines.
    fn trim(&mut self, name: &str, max: usize)
        requires
            old(self).wf(),
            old(self)@.buffers.dom().contains(name@),
        ensures
            final(self).wf(),
            final(self)@ == (StoreModel {
                buffers: old(self)@.buffers.insert(
                    name@,
                    text::tail(old(self)@.buffers[name@], max as int),
                ),
                ..old(self)@
            }),
    {
        let ghost before = self.buffers@;
        let ghost mine = before[name@];
        let ghost others = before.remove(name@);
        proof {
            log_model::lemma_total_remove(before, true, name@);
            log_model::lemma_total_remove(before, false, name@);
        }
        match self.buffers.remove(name) {
            Some(buffer) => {
                let mut buffer = buffer;
                let mut gone: usize = 0;
                assert(mine.skip(0) =~= mine);
                assert(mine.len() == buffer.lines@.len());
                while buffer.lines.len() > max
                    invariant
                        self@ == (StoreModel { buffers: others, ..old(self)@ }),
                        gone <= mine.len() <= usize::MAX,
                        gone == 0 || mine.len() - gone >= max,
                        buffer.deep_view() == mine.skip(gone as int),
                        self.estimated_memory == log_model::held(others) + log_model::lines_size(
                            buffer.deep_view(),
                        ),
                    decreases buffer.lines@.len(),
                {
                    let ghost kept = buffer.deep_view();
                    match buffer.lines.pop_front() {
                        Some(evicted) => {
                            proof {
                                log_model::lemma_lines_size_first(kept);
                                assert(kept[0] == evicted@);
                                assert(buffer.deep_view() =~= kept.drop_first());
                                assert(kept.drop_first() =~= mine.skip(gone + 1));
                            }
                            let freed = Self::estimate_log_size(&evicted);
                            self.estimated_memory = self.estimated_memory.saturating_sub(freed);
                            gone = gone + 1;
                        },
                        None => {},
                    }
                }
                assert(buffer.deep_view() =~= text::tail(mine, max as int));
                let ghost kept = buffer.deep_view();
                self.buffers.insert(name.to_owned(), buffer);
                proof {
                    log_model::lemma_total_insert(before, true, name@, kept);
                    log_model::lemma_total_insert(before, false, name@, kept);
                    assert(self.buffers@ =~= before.insert(name@, kept));
                }
            },
            None => {},
        }
    }
}

impl Default for LogStore {
    fn default() -> (r: Self)
        ensures
            r.wf(),
            r@ == (StoreModel {
                buffers: Map::empty(),
                incoming: Seq::empty(),
                outgoing: Seq::empty(),
                max_lines: DEFAULT_MAX_LINES_PER_PROCESS,
                memory_limit: Some(DEFAULT_MEMORY_LIMIT),
                capacity: DEFAULT_CAPACITY,
            }),
    {
        Self::new()
    }
}

impl LogStorage for LogStore {
    open spec fn wf(&self) -> bool {
        self@.wf() && self.accounts()
    }

    open spec fn admits(&self, logs: Seq<LogModel>) -> bool {
        self@.admits(logs)
    }

    fn push(&mut self, log: LogLine) -> (r: Result<(), LogStorageError>)
        ensures
            r is Ok,
            old(self)@.pushed(log@, final(self)@),
    {
        self.push_internal(log);
        Ok(())
    }

    fn push_batch(&mut self, logs: Vec<LogLine>) -> (r: Result<(), LogStorageError>)
        ensures
            r is Ok,
            old(self)@.pushed_all(logs.deep_view(), final(self)@),
    {
        let n = logs.len();
        let ghost batch = logs.deep_view();
        let mut i: usize = 0;
        assert(batch.take(0) =~= Seq::empty());
        while i < n
            invariant
                0 <= i <= n,
                n == logs@.len(),
                batch == logs.deep_view(),
                old(self)@.admits(batch),
                self.wf(),
                old(self)@.pushed_all(batch.take(i as int), self@),
                log_model::held(self@.buffers) <= log_model::held(old(self)@.buffers)
                    + log_model::lines_size(batch.take(i as int)),
                log_model::count(self@.buffers) <= log_model::count(old(self)@.buffers) + i,
            decreases n - i,
        {
            proof {
                let next = batch.take(i + 1);
                assert(next.drop_last() =~= batch.take(i as int));
                assert(batch =~= next + batch.skip(i + 1));
                log_model::lemma_lines_size_add(next, batch.skip(i + 1));
                assert(seq![batch[i as int]].drop_last() =~= Seq::empty());
                assert(log_model::lines_size(seq![batch[i as int]].drop_last()) == 0);
            }
            let ghost mid = self@;
            self.push_internal(logs[i].clone());
            proof {
                let next = batch.take(i + 1);
                assert(old(self)@.pushed_all(next.drop_last(), mid));
                assert(mid.pushed(next.last(), self@));
            }
            i = i + 1;
        }
        assert(batch.take(n as int) =~= batch);
        Ok(())
    }

    fn get(&self, name: &str, limit: Option<usize>) -> (r: Result<Vec<LogLine>, LogStorageError>)
        ensures
            r matches Ok(logs) && logs.deep_view() == match limit {
                Some(n) => text::tail(self.shows(name@), n as int),
                None => self.shows(name@),
            },
            log_model::lists_processes(self@.buffers, self.walk()),
    {
        let logs = if str_eq(name, "*") {
            self.get_all_internal()
        } else {
            self.get_process_internal(name)
        };
        self.walks();
        Ok(last_lines(logs, limit))
    }

    fn query(&self, query: LogQuery) -> (r: Result<LogQueryResult, LogStorageError>)
        ensures
            r matches Ok(result) && log_model::answers(
                query@,
                self.shows(query@.effective_process()),
                result,
            ),
            log_model::lists_processes(self@.buffers, self.walk()),
    {
        let logs = self.query_internal(&query);
        let ghost matching = logs.deep_view();
        self.walks();
        let total_count = logs.len();
        let offset: usize = match query.offset {
            Some(offset) => offset,
            None => 0,
        };
        let rest: Vec<LogLine> = if offset <= total_count {
            let mut logs = logs;
            let rest = logs.split_off(offset);
            assert(rest.deep_view() =~= matching.skip(offset as int));
            rest
        } else {
            let none: Vec<LogLine> = Vec::new();
            assert(none.deep_view() =~= Seq::empty());
            none
        };
        let ghost after = rest.deep_view();
        let mut paginated = rest;
        match query.limit {
            Some(limit) => {
                if limit <= paginated.len() {
                    paginated.truncate(limit);
                    assert(paginated.deep_view() =~= after.take(limit as int));
                }
            },
            None => {},
        }
        assert(paginated.deep_view() == query@.page(matching));
        let has_more = if offset <= total_count {
            offset + paginated.len() < total_count
        } else {
            false
        };
        let result = LogQueryResult { logs: paginated, total_count, has_more, offset };
        Ok(result)
    }

    fn stats(&self) -> (r: Result<LogStorageStats, LogStorageError>)
        ensures
            r matches Ok(stats) && {
                &&& stats.total_lines == log_model::count(self@.buffers)
                &&& stats.process_count == log_model::speaking(self@.buffers).len()
                &&& stats.memory_bytes == log_model::held(self@.buffers)
                &&& log_model::is_oldest(self@.buffers, stats.oldest_timestamp)
                &&& log_model::is_newest(self@.buffers, stats.newest_timestamp)
                &&& stats.memory_limit == self@.memory_limit
                &&& stats.max_lines_per_process == self@.max_lines
            },
    {
        let process_count = self.count_processes();
        let total_lines = self.count_lines();
        let (oldest, newest) = self.time_span();
        Ok(
            LogStorageStats {
                total_lines,
                process_count,
                memory_bytes: self.estimated_memory,
                oldest_timestamp: oldest,
                newest_timestamp: newest,
                memory_limit: self.memory_limit,
                max_lines_per_process: self.max_lines_per_process,
            },
        )
    }

    fn clear(&mut self) -> (r: Result<(), LogStorageError>)
        ensures
            r is Ok,
            final(self)@ == (StoreModel { buffers: Map::empty(), ..old(self)@ }),
    {
        self.buffers.clear();
        self.estimated_memory = 0;
        proof {
            log_model::lemma_total_empty(self.buffers@, true);
            log_model::lemma_total_empty(self.buffers@, false);
        }
        Ok(())
    }

    fn clear_process(&mut self, name: &str) -> (r: Result<(), LogStorageError>)
        ensures
            r is Ok,
            final(self)@ == (StoreModel {
                buffers: old(self)@.buffers.remove(name@),
                ..old(self)@
            }),
    {
        let ghost before = self.buffers@;
        proof {
            if before.dom().contains(name@) {
                log_model::lemma_total_remove(before, true, name@);
                log_model::lemma_total_remove(before, false, name@);
            } else {
                assert(before.remove(name@) =~= before);
            }
        }
        match self.buffers.remove(name) {
            Some(buffer) => {
                let freed = buffer_size(&buffer);
                self.estimated_memory = self.estimated_memory.saturating_sub(freed);
            },
            None => {},
        }
        Ok(())
    }

    fn flush(&mut self) -> (r: Result<(), LogStorageError>)
        ensures
            r is Ok,
            final(self)@ == old(self)@,
    {
        Ok(())
    }

    fn flush_now(&mut self) -> (r: Result<(), LogStorageError>)
        ensures
            r is Ok,
            final(self)@ == old(self)@,
    {
        Ok(())
    }

    fn enforce_retention(&mut self) -> (r: Result<(), LogStorageError>)
        ensures
            r is Ok,
            final(self)@ == old(self)@,
    {
        Ok(())
    }

    fn memory_limit(&self) -> (r: Option<usize>)
        ensures
            r == self@.memory_limit,
    {
        self.memory_limit
    }

    fn set_memory_limit(&mut self, bytes: usize) -> (r: Option<usize>)
        ensures
            r == old(self)@.memory_limit,
            log_model::evicted(old(self)@.buffers, Some(bytes), final(self)@.buffers),
            final(self)@ == (StoreModel {
                memory_limit: Some(bytes),
                buffers: final(self)@.buffers,
                ..old(self)@
            }),
    {
        let previous = self.memory_limit;
        self.memory_limit = Some(bytes);
        self.maybe_evict_for_memory();
        previous
    }

    fn max_lines_per_process(&self) -> (r: usize)
        ensures
            r == self@.max_lines,
    {
        self.max_lines_per_process
    }

    fn set_max_lines_per_process(&mut self, max: usize) -> (r: usize)
        ensures
            r == old(self)@.max_lines,
            final(self)@ == old(self)@.trimmed(max),
    {
        let previous = self.max_lines_per_process;
        self.max_lines_per_process = max;
        self.trim_all(max);
        previous
    }
}

/// Whether a line is shown as it comes in: only what processes say is.
pub fn is_shown(log: &LogLine) -> (r: bool)
    ensures
        r == (log@.source == LogSource::Process),
{
    match log.source {
        LogSource::Process => true,
        LogSource::Daemon => false,
    }
}

/// Whether a retention sweep is due: only with a persistent backend, and once
/// the cadence has passed since the last one, if there was one.
pub fn retention_due(persistent: bool, since_last: Option<u128>, cadence: u128) -> (r: bool)
    ensures
        r == (persistent && match since_last {
            Some(elapsed) => elapsed >= cadence,
            None => true,
        }),
{
    persistent && match since_last {
        Some(elapsed) => elapsed >= cadence,
        None => true,
    }
}

} // verus!
