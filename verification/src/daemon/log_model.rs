//! The model of the log store: what it holds, what a new line changes, and what
//! a reader sees.

use crate::daemon::api::{LogLine, LogModel};
use crate::daemon::log_storage::{LogQueryResult, QueryModel};
use crate::text::{self, Text};
use vstd::prelude::*;

verus! {

/// The lines of each process, oldest first.
pub type Buffers = Map<Text, Seq<LogModel>>;

/// The bytes that a line is estimated to take.
pub open spec fn log_size(l: LogModel) -> nat {
    vstd::layout::size_of::<LogLine>() + text::byte_len(l.process) + text::byte_len(l.content) + (
    match l.group {
        Some(g) => text::byte_len(g),
        None => 0,
    })
}

/// The bytes that some lines are estimated to take.
pub open spec fn lines_size(s: Seq<LogModel>) -> nat
    decreases s.len(),
{
    if s.len() == 0 {
        0
    } else {
        lines_size(s.drop_last()) + log_size(s.last())
    }
}

/// What some lines count for: their bytes, or one each.
pub open spec fn amount(s: Seq<LogModel>, sized: bool) -> nat {
    if sized {
        lines_size(s)
    } else {
        s.len()
    }
}

/// What the lines of all processes count for.
pub open spec fn total(b: Buffers, sized: bool) -> nat
    decreases b.dom().len(),
{
    if b.dom().finite() && b.dom().len() > 0 {
        let k = b.dom().choose();
        amount(b[k], sized) + total(b.remove(k), sized)
    } else {
        0
    }
}

/// The bytes that the stored lines are estimated to take.
pub open spec fn held(b: Buffers) -> nat {
    total(b, true)
}

/// The number of stored lines.
pub open spec fn count(b: Buffers) -> nat {
    total(b, false)
}

pub proof fn lemma_lines_size_push(s: Seq<LogModel>, l: LogModel)
    ensures
        lines_size(s.push(l)) == lines_size(s) + log_size(l),
{
    assert(s.push(l).drop_last() =~= s);
}

pub proof fn lemma_lines_size_add(a: Seq<LogModel>, b: Seq<LogModel>)
    ensures
        lines_size(a + b) == lines_size(a) + lines_size(b),
    decreases b.len(),
{
    if b.len() == 0 {
        assert(a + b =~= a);
    } else {
        lemma_lines_size_add(a, b.drop_last());
        assert((a + b).drop_last() =~= a + b.drop_last());
    }
}

pub proof fn lemma_lines_size_first(s: Seq<LogModel>)
    requires
        s.len() > 0,
    ensures
        lines_size(s) == log_size(s[0]) + lines_size(s.drop_first()),
{
    assert(s =~= seq![s[0]] + s.drop_first());
    lemma_lines_size_add(seq![s[0]], s.drop_first());
    assert(seq![s[0]].drop_last() =~= Seq::<LogModel>::empty());
    assert(lines_size(seq![s[0]].drop_last()) == 0);
}

/// The last lines of a list take no more than the list.
pub proof fn lemma_lines_size_tail(s: Seq<LogModel>, n: int)
    requires
        n >= 0,
    ensures
        lines_size(text::tail(s, n)) <= lines_size(s),
{
    if n < s.len() {
        let cut = s.len() - n;
        assert(s =~= s.take(cut) + s.skip(cut));
        lemma_lines_size_add(s.take(cut), s.skip(cut));
    }
}

/// What is stored counts for what one process stored and the rest.
pub proof fn lemma_total_remove(b: Buffers, sized: bool, k: Text)
    requires
        b.dom().finite(),
        b.dom().contains(k),
    ensures
        total(b, sized) == amount(b[k], sized) + total(b.remove(k), sized),
    decreases b.dom().len(),
{
    let c = b.dom().choose();
    assert(b.dom().len() > 0);
    if c != k {
        assert(b.remove(c).dom() =~= b.dom().remove(c));
        assert(b.remove(k).dom() =~= b.dom().remove(k));
        lemma_total_remove(b.remove(c), sized, k);
        lemma_total_remove(b.remove(k), sized, c);
        assert(b.remove(c).remove(k) =~= b.remove(k).remove(c));
    }
}

pub proof fn lemma_total_insert(b: Buffers, sized: bool, k: Text, s: Seq<LogModel>)
    requires
        b.dom().finite(),
    ensures
        total(b.insert(k, s), sized) == amount(s, sized) + total(b.remove(k), sized),
{
    lemma_total_remove(b.insert(k, s), sized, k);
    assert(b.insert(k, s).remove(k) =~= b.remove(k));
}

/// With no lines, nothing is counted.
pub proof fn lemma_total_empty(b: Buffers, sized: bool)
    requires
        forall|k: Text| #[trigger] b.dom().contains(k) ==> b[k].len() == 0,
    ensures
        total(b, sized) == 0,
    decreases b.dom().len(),
{
    if b.dom().finite() && b.dom().len() > 0 {
        let k = b.dom().choose();
        assert(b.dom().contains(k));
        assert(b.remove(k).dom() =~= b.dom().remove(k));
        lemma_total_empty(b.remove(k), sized);
    }
}

/// The lines of a process.
pub open spec fn of_process(b: Buffers, name: Text) -> Seq<LogModel> {
    if b.dom().contains(name) {
        b[name]
    } else {
        Seq::empty()
    }
}

/// A line is filed under its process, of which the last `max` lines are kept.
pub open spec fn filed(b: Buffers, l: LogModel, max: int) -> Buffers {
    b.insert(l.process, text::tail(of_process(b, l.process).push(l), max))
}

/// The estimate above which lines are evicted: 90% of the limit.
pub open spec fn threshold(limit: usize) -> int {
    limit * 9 / 10
}

/// The estimate down to which lines are evicted: 80% of the limit.
pub open spec fn target(limit: usize) -> int {
    limit * 8 / 10
}

/// Whether no process has more lines than `p`, and `p` has some.
pub open spec fn longest(b: Buffers, p: Text) -> bool {
    &&& b.dom().contains(p)
    &&& b[p].len() > 0
    &&& forall|q: Text| #[trigger] b.dom().contains(q) ==> b[q].len() <= b[p].len()
}

/// The oldest line of a process goes.
pub open spec fn drop_oldest(b: Buffers, p: Text) -> Buffers {
    b.insert(p, b[p].drop_first())
}

/// The oldest line of each process of a list goes, one after the other.
pub open spec fn drop_each(b: Buffers, path: Seq<Text>) -> Buffers
    decreases path.len(),
{
    if path.len() == 0 {
        b
    } else {
        drop_oldest(drop_each(b, path.drop_last()), path.last())
    }
}

/// Whether each process of a list had the most lines when it lost one, and
/// losing one was still due.
pub open spec fn fair(b: Buffers, bound: int, path: Seq<Text>) -> bool
    decreases path.len(),
{
    path.len() > 0 ==> {
        let before = drop_each(b, path.drop_last());
        &&& fair(b, bound, path.drop_last())
        &&& held(before) > bound
        &&& longest(before, path.last())
    }
}

/// Whether there are no lines at all.
pub open spec fn no_lines(b: Buffers) -> bool {
    forall|k: Text| #[trigger] b.dom().contains(k) ==> b[k].len() == 0
}

/// Whether dropping lines along a list of processes is fair and leaves no more
/// than the bound allows.
pub open spec fn settles(b: Buffers, bound: int, path: Seq<Text>) -> bool {
    &&& fair(b, bound, path)
    &&& held(drop_each(b, path)) <= bound || no_lines(drop_each(b, path))
}

/// Whether `after` is what the memory limit leaves of `b`: all of it up to the
/// threshold; above it, the oldest line of a process with the most lines goes
/// until the estimate is down to the target. Which of several processes with
/// the most lines loses one is left open.
pub open spec fn evicted(b: Buffers, limit: Option<usize>, after: Buffers) -> bool {
    match limit {
        None => after == b,
        Some(limit) => if held(b) <= threshold(limit) {
            after == b
        } else {
            exists|path: Seq<Text>| #[trigger]
                settles(b, target(limit), path) && after == drop_each(b, path)
        },
    }
}

/// The lines of some processes, one process after the other.
pub open spec fn strung(b: Buffers, order: Seq<Text>) -> Seq<LogModel>
    decreases order.len(),
{
    if order.len() == 0 {
        Seq::empty()
    } else {
        strung(b, order.drop_last()) + b[order.last()]
    }
}

/// A line goes behind all lines that are not newer.
pub open spec fn sorted_in(s: Seq<LogModel>, l: LogModel) -> Seq<LogModel>
    decreases s.len(),
{
    if s.len() == 0 || s.last().timestamp <= l.timestamp {
        s.push(l)
    } else {
        sorted_in(s.drop_last(), l).push(s.last())
    }
}

/// The lines by time; lines of the same time keep their order.
pub open spec fn by_time(s: Seq<LogModel>) -> Seq<LogModel>
    decreases s.len(),
{
    if s.len() == 0 {
        s
    } else {
        sorted_in(by_time(s.drop_last()), s.last())
    }
}

/// Whether a list holds each process once.
pub open spec fn lists_processes(b: Buffers, order: Seq<Text>) -> bool {
    order.no_duplicates() && order.to_set() == b.dom()
}

/// What a reader of a process sees, by time: the lines of that process, or, for
/// "*", those of all processes, which are walked in a given order. Lines of the
/// same time stand in that order, and those of one process in the order in which
/// they came.
pub open spec fn seen(b: Buffers, walk: Seq<Text>, name: Text) -> Seq<LogModel> {
    by_time(
        if name == "*"@ {
            strung(b, walk)
        } else {
            of_process(b, name)
        },
    )
}

/// The processes that have lines.
pub open spec fn speaking(b: Buffers) -> Set<Text> {
    b.dom().filter(|k: Text| b[k].len() > 0)
}

/// The lines that match a query, of those that the reader sees.
pub open spec fn matching(query: QueryModel, all: Seq<LogModel>) -> Seq<LogModel> {
    all.filter(|l: LogModel| query.matches_line(l))
}

/// What a query gives, of the lines that the reader sees.
pub open spec fn answers(query: QueryModel, all: Seq<LogModel>, r: LogQueryResult) -> bool {
    let matching = matching(query, all);
    &&& r.logs.deep_view() == query.page(matching)
    &&& r.total_count == matching.len()
    &&& r.has_more == (query.start() + query.page(matching).len() < matching.len())
    &&& r.offset == query.start()
}

/// Whether `t` is the least timestamp that is stored, or there is none.
pub open spec fn is_oldest(b: Buffers, t: Option<u64>) -> bool {
    match t {
        Some(t) => {
            &&& exists|k: Text, i: int|
                b.dom().contains(k) && 0 <= i < b[k].len() && (#[trigger] b[k][i]).timestamp == t
            &&& forall|k: Text, i: int|
                b.dom().contains(k) && 0 <= i < b[k].len() ==> (#[trigger] b[k][i]).timestamp >= t
        },
        None => no_lines(b),
    }
}

/// Whether `t` is the greatest timestamp that is stored, or there is none.
pub open spec fn is_newest(b: Buffers, t: Option<u64>) -> bool {
    match t {
        Some(t) => {
            &&& exists|k: Text, i: int|
                b.dom().contains(k) && 0 <= i < b[k].len() && (#[trigger] b[k][i]).timestamp == t
            &&& forall|k: Text, i: int|
                b.dom().contains(k) && 0 <= i < b[k].len() ==> (#[trigger] b[k][i]).timestamp <= t
        },
        None => no_lines(b),
    }
}

/// The model of the log store.
pub struct StoreModel {
    /// The lines of each process, oldest first.
    pub buffers: Buffers,
    /// Lines that were submitted and not yet drained, oldest first.
    pub incoming: Seq<LogModel>,
    /// Lines for the subscribers, oldest first.
    pub outgoing: Seq<LogModel>,
    /// How many lines are kept per process.
    pub max_lines: usize,
    /// The memory limit in bytes.
    pub memory_limit: Option<usize>,
    /// How many lines may wait to be submitted.
    pub capacity: usize,
}

impl StoreModel {
    /// The processes are finitely many, what is stored can be counted, and each
    /// line is filed under its process.
    pub open spec fn wf(self) -> bool {
        &&& self.buffers.dom().finite()
        &&& held(self.buffers) <= usize::MAX
        &&& count(self.buffers) <= usize::MAX
        &&& forall|k: Text, i: int|
            self.buffers.dom().contains(k) && 0 <= i < self.buffers[k].len()
                ==> (#[trigger] self.buffers[k][i]).process == k
    }

    /// Whether more lines can be counted beside those that are stored.
    pub open spec fn admits(self, logs: Seq<LogModel>) -> bool {
        &&& held(self.buffers) + lines_size(logs) <= usize::MAX
        &&& count(self.buffers) + logs.len() <= usize::MAX
    }

    /// Whether `after` is the store with a line pushed: it is filed, the limits
    /// are kept, and the line goes to the subscribers.
    pub open spec fn pushed(self, l: LogModel, after: Self) -> bool {
        &&& evicted(filed(self.buffers, l, self.max_lines as int), self.memory_limit, after.buffers)
        &&& after == (StoreModel {
            buffers: after.buffers,
            outgoing: self.outgoing.push(l),
            ..self
        })
    }

    /// Whether `after` is the store with some lines pushed one after the other.
    pub open spec fn pushed_all(self, logs: Seq<LogModel>, after: Self) -> bool
        decreases logs.len(),
    {
        if logs.len() == 0 {
            after == self
        } else {
            exists|mid: Self|
                self.pushed_all(logs.drop_last(), mid) && #[trigger] mid.pushed(logs.last(), after)
        }
    }

    /// The store where each process keeps its last `max` lines.
    pub open spec fn trimmed(self, max: usize) -> Self {
        StoreModel {
            max_lines: max,
            buffers: self.buffers.map_values(|s: Seq<LogModel>| text::tail(s, max as int)),
            ..self
        }
    }
}

/// Losing the oldest line of a process leaves that much less.
pub proof fn lemma_drop_oldest(b: Buffers, p: Text)
    requires
        b.dom().finite(),
        b.dom().contains(p),
        b[p].len() > 0,
    ensures
        drop_oldest(b, p).dom() == b.dom(),
        held(drop_oldest(b, p)) + log_size(b[p][0]) == held(b),
        count(drop_oldest(b, p)) + 1 == count(b),
{
    lemma_total_remove(b, true, p);
    lemma_total_remove(b, false, p);
    lemma_total_insert(b, true, p, b[p].drop_first());
    lemma_total_insert(b, false, p, b[p].drop_first());
    lemma_lines_size_first(b[p]);
    assert(drop_oldest(b, p).dom() =~= b.dom());
}

/// What a process keeps of its lines and a new one counts for no more than all
/// of them.
pub proof fn lemma_filed(b: Buffers, l: LogModel, max: int)
    requires
        b.dom().finite(),
        max >= 0,
    ensures
        held(filed(b, l, max)) <= held(b) + log_size(l),
        count(filed(b, l, max)) <= count(b) + 1,
        filed(b, l, max).dom() == b.dom().insert(l.process),
{
    let mine = of_process(b, l.process);
    let kept = text::tail(mine.push(l), max);
    lemma_lines_size_push(mine, l);
    lemma_lines_size_tail(mine.push(l), max);
    lemma_total_insert(b, true, l.process, kept);
    lemma_total_insert(b, false, l.process, kept);
    if b.dom().contains(l.process) {
        lemma_total_remove(b, true, l.process);
        lemma_total_remove(b, false, l.process);
    } else {
        assert(b.remove(l.process) =~= b);
    }
    assert(filed(b, l, max).dom() =~= b.dom().insert(l.process));
}

/// Fair eviction keeps the processes, frees memory, and keeps lines filed.
pub proof fn lemma_drop_each(b: Buffers, bound: int, path: Seq<Text>)
    requires
        b.dom().finite(),
        fair(b, bound, path),
    ensures
        drop_each(b, path).dom() == b.dom(),
        held(drop_each(b, path)) <= held(b),
        count(drop_each(b, path)) + path.len() == count(b),
    decreases path.len(),
{
    if path.len() > 0 {
        lemma_drop_each(b, bound, path.drop_last());
        lemma_drop_oldest(drop_each(b, path.drop_last()), path.last());
    }
}

} // verus!
