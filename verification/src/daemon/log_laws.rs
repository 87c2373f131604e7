//! Laws of the log store.

use crate::daemon::api::LogModel;
use crate::daemon::log_model::{self, Buffers, StoreModel};
use crate::daemon::log_storage::{LogQueryResult, QueryModel};
use crate::text::{self, Text};
use vstd::prelude::*;

verus! {

/// Whether lines come by time.
pub open spec fn sorted(s: Seq<LogModel>) -> bool {
    forall|i: int, j: int| 0 <= i <= j < s.len() ==> s[i].timestamp <= s[j].timestamp
}

proof fn lemma_sorted_in(s: Seq<LogModel>, l: LogModel)
    requires
        sorted(s),
    ensures
        sorted(log_model::sorted_in(s, l)),
        log_model::sorted_in(s, l).to_multiset() == s.to_multiset().insert(l),
        log_model::sorted_in(s, l).len() == s.len() + 1,
        forall|i: int|
            0 <= i < log_model::sorted_in(s, l).len() ==> (#[trigger] log_model::sorted_in(s, l)[i])
                == l || exists|j: int| 0 <= j < s.len() && log_model::sorted_in(s, l)[i] == #[trigger] s[j],
    decreases s.len(),
{
    broadcast use vstd::seq_lib::group_to_multiset_ensures;

    let r = log_model::sorted_in(s, l);
    if s.len() == 0 || s.last().timestamp <= l.timestamp {
        assert forall|i: int| 0 <= i < r.len() implies (#[trigger] r[i]) == l || exists|j: int|
            0 <= j < s.len() && r[i] == #[trigger] s[j] by {
            if i < s.len() {
                assert(r[i] == s[i]);
            }
        }
    } else {
        let short = log_model::sorted_in(s.drop_last(), l);
        lemma_sorted_in(s.drop_last(), l);
        assert(s.drop_last().push(s.last()) =~= s);
        assert(s.to_multiset() == s.drop_last().to_multiset().insert(s.last()));
        assert(r.to_multiset() =~= s.to_multiset().insert(l));
        assert forall|i: int| 0 <= i < r.len() implies (#[trigger] r[i]) == l || exists|j: int|
            0 <= j < s.len() && r[i] == #[trigger] s[j] by {
            if i < short.len() {
                assert(r[i] == short[i]);
                if short[i] != l {
                    let j = choose|j: int|
                        0 <= j < s.drop_last().len() && short[i] == #[trigger] s.drop_last()[j];
                    assert(r[i] == s[j]);
                }
            } else {
                assert(r[i] == s[s.len() - 1]);
            }
        }
        assert forall|i: int, j: int| 0 <= i <= j < r.len() implies r[i].timestamp
            <= r[j].timestamp by {
            if j == short.len() {
                assert(r[j] == s.last());
                if i < short.len() {
                    assert(r[i] == short[i]);
                    if short[i] != l {
                        let k = choose|k: int|
                            0 <= k < s.drop_last().len() && short[i] == #[trigger] s.drop_last()[k];
                        assert(s[k].timestamp <= s[s.len() - 1].timestamp);
                    }
                }
            }
        }
    }
}

/// Lines of one time.
pub open spec fn of_time(s: Seq<LogModel>, t: u64) -> Seq<LogModel> {
    s.filter(|l: LogModel| l.timestamp == t)
}

proof fn lemma_sorted_in_keeps_order(s: Seq<LogModel>, l: LogModel, t: u64)
    requires
        sorted(s),
    ensures
        of_time(log_model::sorted_in(s, l), t) == of_time(s.push(l), t),
    decreases s.len(),
{
    reveal(Seq::filter);
    let p = |l: LogModel| l.timestamp == t;
    if !(s.len() == 0 || s.last().timestamp <= l.timestamp) {
        let short = s.drop_last();
        lemma_sorted_in_keeps_order(short, l, t);
        let r = log_model::sorted_in(short, l);
        assert(r.push(s.last()).drop_last() =~= r);
        assert(s.push(l).drop_last() =~= s);
        assert(short.push(l).drop_last() =~= short);
        // The line and the last one have different times, so at most one of them
        // is counted and their order does not matter.
        assert(of_time(r.push(s.last()), t) == if p(s.last()) {
            of_time(r, t).push(s.last())
        } else {
            of_time(r, t)
        });
        assert(of_time(s.push(l), t) == if p(l) {
            of_time(s, t).push(l)
        } else {
            of_time(s, t)
        });
        assert(of_time(short.push(l), t) == if p(l) {
            of_time(short, t).push(l)
        } else {
            of_time(short, t)
        });
        assert(of_time(s, t) == if p(s.last()) {
            of_time(short, t).push(s.last())
        } else {
            of_time(short, t)
        });
    }
}

/// Reading all processes: the lines come by time, none is lost, added or
/// doubled, and lines of the same time keep their order.
pub proof fn law_reading_all_sorts(s: Seq<LogModel>, t: u64)
    ensures
        sorted(log_model::by_time(s)),
        log_model::by_time(s).to_multiset() == s.to_multiset(),
        of_time(log_model::by_time(s), t) == of_time(s, t),
    decreases s.len(),
{
    broadcast use vstd::seq_lib::group_to_multiset_ensures;

    if s.len() > 0 {
        law_reading_all_sorts(s.drop_last(), t);
        lemma_sorted_in(log_model::by_time(s.drop_last()), s.last());
        lemma_sorted_in_keeps_order(log_model::by_time(s.drop_last()), s.last(), t);
        assert(s.drop_last().push(s.last()) =~= s);
        let short = log_model::by_time(s.drop_last());
        reveal(Seq::filter);
        assert(short.push(s.last()).drop_last() =~= short);
    }
}

/// Whether every process has no more lines than allowed.
pub open spec fn within(b: Buffers, max: int) -> bool {
    forall|k: Text| #[trigger] b.dom().contains(k) ==> b[k].len() <= max
}

proof fn lemma_drop_each_within(b: Buffers, bound: int, path: Seq<Text>, max: int)
    requires
        b.dom().finite(),
        log_model::fair(b, bound, path),
        within(b, max),
    ensures
        within(log_model::drop_each(b, path), max),
    decreases path.len(),
{
    if path.len() > 0 {
        lemma_drop_each_within(b, bound, path.drop_last(), max);
        log_model::lemma_drop_each(b, bound, path.drop_last());
    }
}

proof fn lemma_drop_each_suffix(b: Buffers, bound: int, path: Seq<Text>, p: Text)
    requires
        b.dom().finite(),
        log_model::fair(b, bound, path),
    ensures
        log_model::of_process(log_model::drop_each(b, path), p).is_suffix_of(
            log_model::of_process(b, p),
        ),
    decreases path.len(),
{
    if path.len() > 0 {
        lemma_drop_each_suffix(b, bound, path.drop_last(), p);
        log_model::lemma_drop_each(b, bound, path.drop_last());
        let mid = log_model::of_process(log_model::drop_each(b, path.drop_last()), p);
        let whole = log_model::of_process(b, p);
        let after = log_model::of_process(log_model::drop_each(b, path), p);
        if p == path.last() {
            assert(after =~= mid.drop_first());
        }
        assert(after.is_suffix_of(mid));
        lemma_suffix_trans(after, mid, whole);
    }
}

proof fn lemma_suffix_trans(a: Seq<LogModel>, b: Seq<LogModel>, c: Seq<LogModel>)
    requires
        a.is_suffix_of(b),
        b.is_suffix_of(c),
    ensures
        a.is_suffix_of(c),
{
    assert(a =~= b.skip(b.len() - a.len()));
    assert(b =~= c.skip(c.len() - b.len()));
    assert(a =~= c.skip(c.len() - a.len()));
}

/// A push keeps the limits: if no process had too many lines, none has after it,
/// and the estimate is within the memory limit, or nothing is stored at all.
pub proof fn law_push_keeps_the_limits(store: StoreModel, l: LogModel, after: StoreModel)
    requires
        store.wf(),
        within(store.buffers, store.max_lines as int),
        store.pushed(l, after),
    ensures
        within(after.buffers, store.max_lines as int),
        store.memory_limit matches Some(limit) ==> log_model::held(after.buffers)
            <= log_model::threshold(limit) || log_model::no_lines(after.buffers),
{
    let max = store.max_lines as int;
    let b = log_model::filed(store.buffers, l, max);
    log_model::lemma_filed(store.buffers, l, max);
    assert(within(b, max)) by {
        assert forall|k: Text| #[trigger] b.dom().contains(k) implies b[k].len() <= max by {
            if k != l.process {
                assert(store.buffers.dom().contains(k));
            }
        }
    }
    match store.memory_limit {
        None => {},
        Some(limit) => {
            if log_model::held(b) > log_model::threshold(limit) {
                let path = choose|path: Seq<Text>| #[trigger]
                    log_model::settles(b, log_model::target(limit), path) && after.buffers
                        == log_model::drop_each(b, path);
                lemma_drop_each_within(b, log_model::target(limit), path, max);
            }
        },
    }
}

/// A push only adds the line to its process and only takes away the oldest
/// lines: what a process has after it is an end of what it had, with the new
/// line behind it if it is its own.
pub proof fn law_push_takes_only_the_oldest(
    store: StoreModel,
    l: LogModel,
    after: StoreModel,
    p: Text,
)
    requires
        store.wf(),
        store.pushed(l, after),
    ensures
        log_model::of_process(after.buffers, p).is_suffix_of(
            if p == l.process {
                log_model::of_process(store.buffers, p).push(l)
            } else {
                log_model::of_process(store.buffers, p)
            },
        ),
        after.buffers.dom() == store.buffers.dom().insert(l.process),
        after.outgoing == store.outgoing.push(l),
{
    let max = store.max_lines as int;
    let b = log_model::filed(store.buffers, l, max);
    log_model::lemma_filed(store.buffers, l, max);
    let whole = if p == l.process {
        log_model::of_process(store.buffers, p).push(l)
    } else {
        log_model::of_process(store.buffers, p)
    };
    assert(log_model::of_process(b, p).is_suffix_of(whole));
    match store.memory_limit {
        None => {},
        Some(limit) => {
            if log_model::held(b) > log_model::threshold(limit) {
                let path = choose|path: Seq<Text>| #[trigger]
                    log_model::settles(b, log_model::target(limit), path) && after.buffers
                        == log_model::drop_each(b, path);
                lemma_drop_each_suffix(b, log_model::target(limit), path, p);
                log_model::lemma_drop_each(b, log_model::target(limit), path);
                lemma_suffix_trans(
                    log_model::of_process(after.buffers, p),
                    log_model::of_process(b, p),
                    whole,
                );
            }
        },
    }
}

/// The lines of a process among some lines.
pub open spec fn own(logs: Seq<LogModel>, p: Text) -> Seq<LogModel> {
    logs.filter(|l: LogModel| l.process == p)
}

proof fn lemma_own_step(logs: Seq<LogModel>, p: Text)
    requires
        logs.len() > 0,
    ensures
        own(logs, p) == if logs.last().process == p {
            own(logs.drop_last(), p).push(logs.last())
        } else {
            own(logs.drop_last(), p)
        },
{
    reveal(Seq::filter);
}

proof fn lemma_pushed_wf(store: StoreModel, l: LogModel, after: StoreModel)
    requires
        store.wf(),
        store.admits(seq![l]),
        store.pushed(l, after),
    ensures
        after.wf(),
        log_model::held(after.buffers) <= log_model::held(store.buffers) + log_model::log_size(l),
        log_model::count(after.buffers) <= log_model::count(store.buffers) + 1,
{
    let max = store.max_lines as int;
    let b = log_model::filed(store.buffers, l, max);
    log_model::lemma_filed(store.buffers, l, max);
    log_model::lemma_lines_size_push(Seq::empty(), l);
    assert(Seq::<LogModel>::empty().push(l) =~= seq![l]);
    match store.memory_limit {
        None => {},
        Some(limit) => {
            if log_model::held(b) > log_model::threshold(limit) {
                let path = choose|path: Seq<Text>| #[trigger]
                    log_model::settles(b, log_model::target(limit), path) && after.buffers
                        == log_model::drop_each(b, path);
                log_model::lemma_drop_each(b, log_model::target(limit), path);
            }
        },
    }
    assert forall|k: Text, i: int|
        after.buffers.dom().contains(k) && 0 <= i < after.buffers[k].len() implies (
    #[trigger] after.buffers[k][i]).process == k by {
        law_push_takes_only_the_oldest(store, l, after, k);
        let now = log_model::of_process(after.buffers, k);
        let whole = if k == l.process {
            log_model::of_process(store.buffers, k).push(l)
        } else {
            log_model::of_process(store.buffers, k)
        };
        let at = whole.len() - now.len() + i;
        assert(now[i] == whole[at]);
        if at < log_model::of_process(store.buffers, k).len() {
            assert(whole[at] == log_model::of_process(store.buffers, k)[at]);
            assert(store.buffers[k][at].process == k);
        }
    }
}

proof fn lemma_pushed_all_wf(store: StoreModel, logs: Seq<LogModel>, after: StoreModel)
    requires
        store.wf(),
        store.admits(logs),
        store.pushed_all(logs, after),
    ensures
        after.wf(),
        after.max_lines == store.max_lines,
        after.memory_limit == store.memory_limit,
        log_model::held(after.buffers) <= log_model::held(store.buffers) + log_model::lines_size(
            logs,
        ),
        log_model::count(after.buffers) <= log_model::count(store.buffers) + logs.len(),
    decreases logs.len(),
{
    if logs.len() > 0 {
        let mid = choose|mid: StoreModel|
            store.pushed_all(logs.drop_last(), mid) && #[trigger] mid.pushed(logs.last(), after);
        lemma_pushed_all_wf(store, logs.drop_last(), mid);
        let one = seq![logs.last()];
        assert(one.drop_last() =~= Seq::empty());
        assert(log_model::lines_size(one.drop_last()) == 0);
        lemma_pushed_wf(mid, logs.last(), after);
    }
}

/// Draining: whatever the limits take away is taken from the oldest lines. What
/// a process has after it is an end of what it had, followed by the lines of its
/// own that were submitted; the subscribers get every submitted line, in order.
pub proof fn law_drain_takes_only_the_oldest(
    store: StoreModel,
    logs: Seq<LogModel>,
    after: StoreModel,
    p: Text,
)
    requires
        store.wf(),
        store.admits(logs),
        store.pushed_all(logs, after),
    ensures
        log_model::of_process(after.buffers, p).is_suffix_of(
            log_model::of_process(store.buffers, p) + own(logs, p),
        ),
        after.outgoing == store.outgoing + logs,
    decreases logs.len(),
{
    let had = log_model::of_process(store.buffers, p);
    if logs.len() == 0 {
        reveal(Seq::filter);
        assert(had + own(logs, p) =~= had);
        assert(store.outgoing + logs =~= store.outgoing);
    } else {
        let mid = choose|mid: StoreModel|
            store.pushed_all(logs.drop_last(), mid) && #[trigger] mid.pushed(logs.last(), after);
        law_drain_takes_only_the_oldest(store, logs.drop_last(), mid, p);
        lemma_pushed_all_wf(store, logs.drop_last(), mid);
        law_push_takes_only_the_oldest(mid, logs.last(), after, p);
        lemma_own_step(logs, p);
        let before = had + own(logs.drop_last(), p);
        let now = log_model::of_process(mid.buffers, p);
        assert(store.outgoing + logs =~= (store.outgoing + logs.drop_last()).push(logs.last()));
        if logs.last().process == p {
            assert(had + own(logs, p) =~= before.push(logs.last()));
            assert(now =~= before.skip(before.len() - now.len()));
            assert(now.push(logs.last()).is_suffix_of(before.push(logs.last())));
            lemma_suffix_trans(
                log_model::of_process(after.buffers, p),
                now.push(logs.last()),
                before.push(logs.last()),
            );
        } else {
            lemma_suffix_trans(log_model::of_process(after.buffers, p), now, before);
        }
    }
}

/// Lines that were submitted are there after the drain: as long as neither limit
/// is reached, each process has what it had, followed by its own submitted
/// lines.
pub proof fn law_drained_lines_are_there(
    store: StoreModel,
    logs: Seq<LogModel>,
    after: StoreModel,
    p: Text,
)
    requires
        store.wf(),
        store.admits(logs),
        store.pushed_all(logs, after),
        forall|k: Text| #[trigger]
            log_model::of_process(store.buffers, k).len() + logs.len() <= store.max_lines,
        store.memory_limit matches Some(limit) ==> log_model::held(store.buffers)
            + log_model::lines_size(logs) <= log_model::threshold(limit),
    ensures
        log_model::of_process(after.buffers, p) == log_model::of_process(store.buffers, p) + own(
            logs,
            p,
        ),
    decreases logs.len(),
{
    let had = log_model::of_process(store.buffers, p);
    if logs.len() == 0 {
        reveal(Seq::filter);
        assert(had + own(logs, p) =~= had);
    } else {
        let mid = choose|mid: StoreModel|
            store.pushed_all(logs.drop_last(), mid) && #[trigger] mid.pushed(logs.last(), after);
        let l = logs.last();
        lemma_pushed_all_wf(store, logs.drop_last(), mid);
        law_drained_lines_are_there(store, logs.drop_last(), mid, p);
        law_drained_lines_are_there(store, logs.drop_last(), mid, l.process);
        lemma_own_step(logs, p);
        lemma_own_bound(logs.drop_last(), l.process);
        let max = store.max_lines as int;
        log_model::lemma_filed(mid.buffers, l, max);
        assert(log_model::of_process(store.buffers, l.process).len() + logs.len() <= max);
        assert(after.buffers == log_model::filed(mid.buffers, l, max));
        if l.process == p {
            assert(had + own(logs, p) =~= (had + own(logs.drop_last(), p)).push(l));
        }
    }
}

proof fn lemma_own_bound(logs: Seq<LogModel>, p: Text)
    ensures
        own(logs, p).len() <= logs.len(),
    decreases logs.len(),
{
    reveal(Seq::filter);
    if logs.len() > 0 {
        lemma_own_bound(logs.drop_last(), p);
    }
}

/// Paging: two pages that follow each other are the page of both lengths, so
/// that walking the pages shows every matching line once and in order.
pub proof fn law_pages_join(
    query: QueryModel,
    matching: Seq<LogModel>,
    offset: usize,
    first: usize,
    second: usize,
)
    requires
        offset + first <= usize::MAX,
        first + second <= usize::MAX,
    ensures
        (QueryModel { offset: Some(offset), limit: Some(first), ..query }).page(matching) + (
        QueryModel {
            offset: Some((offset + first) as usize),
            limit: Some(second),
            ..query
        }).page(matching) == (QueryModel {
            offset: Some(offset),
            limit: Some((first + second) as usize),
            ..query
        }).page(matching),
{
    let a = (QueryModel { offset: Some(offset), limit: Some(first), ..query }).page(matching);
    let b = (QueryModel {
        offset: Some((offset + first) as usize),
        limit: Some(second),
        ..query
    }).page(matching);
    let c = (QueryModel {
        offset: Some(offset),
        limit: Some((first + second) as usize),
        ..query
    }).page(matching);
    assert(a + b =~= c);
}

/// A query without a page of its own.
pub open spec fn whole(query: QueryModel) -> QueryModel {
    QueryModel { offset: None, limit: None, ..query }
}

/// A query for a page.
pub open spec fn paged(query: QueryModel, offset: usize, limit: usize) -> QueryModel {
    QueryModel { offset: Some(offset), limit: Some(limit), ..query }
}

proof fn lemma_matching_is_that_of_the_whole(
    query: QueryModel,
    shown: Seq<LogModel>,
    offset: usize,
    limit: usize,
)
    ensures
        log_model::matching(paged(query, offset, limit), shown) == log_model::matching(
            whole(query),
            shown,
        ),
{
    let p = |l: LogModel| paged(query, offset, limit).matches_line(l);
    let q = |l: LogModel| whole(query).matches_line(l);
    assert(p =~= q);
}

/// A page of a query is that part of what the query gives as a whole: both see the
/// same lines of a store that has not changed, of one process or of all of them.
/// There is more behind it exactly where it does not reach the end.
pub proof fn law_a_page_is_part_of_the_whole(
    query: QueryModel,
    shown: Seq<LogModel>,
    offset: usize,
    limit: usize,
    all: LogQueryResult,
    page: LogQueryResult,
)
    requires
        log_model::answers(whole(query), shown, all),
        log_model::answers(paged(query, offset, limit), shown, page),
    ensures
        ({
            let lines = all.logs.deep_view();
            let from = if offset <= lines.len() {
                offset as int
            } else {
                lines.len() as int
            };
            let to = if offset + limit <= lines.len() {
                offset + limit
            } else {
                lines.len() as int
            };
            &&& page.logs.deep_view() == lines.subrange(from, to)
            &&& page.total_count == lines.len()
            &&& page.offset == offset
            &&& page.has_more == (offset + page.logs.deep_view().len() < page.total_count)
            &&& offset <= lines.len() ==> page.has_more == (offset + limit < lines.len())
        }),
{
    lemma_matching_is_that_of_the_whole(query, shown, offset, limit);
    let matching = log_model::matching(whole(query), shown);
    assert(whole(query).page(matching) =~= matching);
    let lines = all.logs.deep_view();
    let from = if offset <= lines.len() {
        offset as int
    } else {
        lines.len() as int
    };
    let to = if offset + limit <= lines.len() {
        offset + limit
    } else {
        lines.len() as int
    };
    assert(page.logs.deep_view() =~= lines.subrange(from, to));
}

/// The first `k` pages of a length, one behind the other.
pub open spec fn pages(query: QueryModel, shown: Seq<LogModel>, limit: usize, k: nat) -> Seq<LogModel>
    decreases k,
{
    if k == 0 {
        Seq::empty()
    } else {
        let next = paged(query, ((k - 1) * limit) as usize, limit);
        pages(query, shown, limit, (k - 1) as nat) + next.page(log_model::matching(next, shown))
    }
}

/// The pages of one length, joined, give what the query gives as a whole: the
/// first `k` of them its first lines, and all of it once there are enough.
pub proof fn law_pages_give_the_whole(
    query: QueryModel,
    shown: Seq<LogModel>,
    limit: usize,
    k: nat,
)
    requires
        k * limit <= usize::MAX,
    ensures
        ({
            let all = whole(query).page(log_model::matching(whole(query), shown));
            pages(query, shown, limit, k) == if k * limit <= all.len() {
                all.take((k * limit) as int)
            } else {
                all
            }
        }),
    decreases k,
{
    let matching = log_model::matching(whole(query), shown);
    let all = whole(query).page(matching);
    assert(all =~= matching);
    if k == 0 {
        assert(0 * limit == 0);
        assert(all.take(0) =~= Seq::<LogModel>::empty());
    } else {
        let before = (k - 1) as nat;
        assert(k * limit == before * limit + limit) by (nonlinear_arith)
            requires
                before == k - 1,
        ;
        law_pages_give_the_whole(query, shown, limit, before);
        let offset = (before * limit) as usize;
        lemma_matching_is_that_of_the_whole(query, shown, offset, limit);
        assert(offset == before * limit);
        let next = paged(query, offset, limit).page(matching);
        assert(pages(query, shown, limit, k) == pages(query, shown, limit, before) + next);
        if k * limit <= all.len() {
            assert(all.take((before * limit) as int) + next =~= all.take((k * limit) as int));
        } else if before * limit <= all.len() {
            assert(all.take((before * limit) as int) + next =~= all);
        } else {
            assert(all + next =~= all);
        }
    }
}

} // verus!
