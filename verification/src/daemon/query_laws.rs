//! Laws of what is kept of the logs and what a reader gets to see of them.

use crate::daemon::api::{LogModel, LogSource, OutputKind};
use crate::daemon::log_laws;
use crate::daemon::log_model::{self, Buffers, StoreModel};
use crate::daemon::log_storage::{self, LogQueryResult, QueryModel};
use crate::daemon::sqlite::{self, Condition, SqlModel};
use crate::text::{self, Text};
use vstd::prelude::*;

verus! {

/// Whether a text stands somewhere in another.
pub open spec fn stands_in(part: Text, whole: Text) -> bool {
    exists|i: int|
        0 <= i && i + part.len() <= whole.len() && #[trigger] whole.subrange(
            i,
            i + part.len(),
        ) == part
}

/// Whether a line is one that a query asks for: it is of the group, not before the
/// first time and not behind the last, and has the text in it, whatever the case.
pub open spec fn asked_for(query: QueryModel, l: LogModel) -> bool {
    &&& query.group is Some ==> l.group == query.group
    &&& query.since is Some ==> query.since->0 <= l.timestamp
    &&& query.until is Some ==> l.timestamp <= query.until->0
    &&& query.search is Some ==> stands_in(
        text::lowercase(query.search->0),
        text::lowercase(l.content),
    )
}

proof fn lemma_asked(query: QueryModel, l: LogModel)
    ensures
        query.matches_line(l) == asked_for(query, l),
{
    if query.search is Some {
        let whole = text::lowercase(l.content);
        let part = text::lowercase(query.search->0);
        if text::contains(whole, part) {
            let i = choose|i: int| text::occurs_at(whole, part, i);
            assert(whole.subrange(i, i + part.len()) =~= part);
        }
        if stands_in(part, whole) {
            let i = choose|i: int|
                0 <= i && i + part.len() <= whole.len() && #[trigger] whole.subrange(
                    i,
                    i + part.len(),
                ) == part;
            assert(text::occurs_at(whole, part, i));
        }
    }
}

/// A query gives exactly the lines that it asks for, in the order in which they are
/// seen: a line that is seen behind others is given behind what is given of them, if it
/// is asked for, and not at all if it is not.
pub proof fn law_a_query_gives_what_it_asks_for(
    query: QueryModel,
    shown: Seq<LogModel>,
    l: LogModel,
)
    ensures
        asked_for(query, l) ==> log_model::matching(query, shown.push(l)) == log_model::matching(
            query,
            shown,
        ).push(l),
        !asked_for(query, l) ==> log_model::matching(query, shown.push(l)) == log_model::matching(
            query,
            shown,
        ),
        log_model::matching(query, Seq::empty()).len() == 0,
{
    reveal(Seq::filter);
    lemma_asked(query, l);
    assert(shown.push(l).drop_last() =~= shown);
}

/// A page holds the lines from its offset on, as many as its limit allows and there
/// are; how many there are in all, where the page begins and whether there are more
/// behind it is told with it.
pub proof fn law_a_page_is_cut_where_asked(
    query: QueryModel,
    shown: Seq<LogModel>,
    r: LogQueryResult,
)
    requires
        log_model::answers(query, shown, r),
    ensures
        ({
            let all = log_model::matching(query, shown);
            let page = r.logs.deep_view();
            let from = if query.offset is Some {
                query.offset->0 as int
            } else {
                0
            };
            let left = if from <= all.len() {
                all.len() - from
            } else {
                0
            };
            &&& r.total_count == all.len()
            &&& r.offset == from
            &&& query.limit is None ==> page.len() == left
            &&& query.limit is Some && query.limit->0 <= left ==> page.len() == query.limit->0
            &&& query.limit is Some && query.limit->0 > left ==> page.len() == left
            &&& forall|j: int| 0 <= j < page.len() ==> #[trigger] page[j] == all[from + j]
            &&& r.has_more <==> from + page.len() < all.len()
        }),
{
}

/// What is seen of a process is its own lines, each as often as it is stored, by time;
/// what is seen of all processes is the lines of each.
pub proof fn law_a_reader_sees_the_lines(
    b: Buffers,
    walk: Seq<Text>,
    name: Text,
    l: LogModel,
)
    requires
        log_model::lists_processes(b, walk),
    ensures
        name != "*"@ && b.dom().contains(name) ==> log_model::seen(b, walk, name).to_multiset()
            == b[name].to_multiset(),
        name != "*"@ && !b.dom().contains(name) ==> log_model::seen(b, walk, name).len() == 0,
        name == "*"@ ==> (log_model::seen(b, walk, name).contains(l) <==> exists|p: Text|
            b.dom().contains(p) && #[trigger] b[p].contains(l)),
        log_laws::sorted(log_model::seen(b, walk, name)),
{
    broadcast use vstd::seq_lib::group_to_multiset_ensures;

    let raw = if name == "*"@ {
        log_model::strung(b, walk)
    } else {
        log_model::of_process(b, name)
    };
    log_laws::law_reading_all_sorts(raw, 0);
    let shown = log_model::seen(b, walk, name);
    assert(shown.len() == raw.len()) by {
        assert(shown.to_multiset().len() == raw.to_multiset().len());
    }
    if name == "*"@ {
        lemma_strung(b, walk, l);
        assert(shown.contains(l) <==> shown.to_multiset().count(l) > 0);
        assert(raw.contains(l) <==> raw.to_multiset().count(l) > 0);
        if exists|i: int| 0 <= i < walk.len() && b[#[trigger] walk[i]].contains(l) {
            let i = choose|i: int| 0 <= i < walk.len() && b[#[trigger] walk[i]].contains(l);
            assert(walk.to_set().contains(walk[i]));
        }
        if exists|p: Text| b.dom().contains(p) && #[trigger] b[p].contains(l) {
            let p = choose|p: Text| b.dom().contains(p) && #[trigger] b[p].contains(l);
            assert(walk.to_set().contains(p));
            let i = walk.index_of(p);
            assert(b[walk[i]].contains(l));
        }
    }
}

proof fn lemma_strung(b: Buffers, order: Seq<Text>, l: LogModel)
    ensures
        log_model::strung(b, order).contains(l) <==> exists|i: int|
            0 <= i < order.len() && b[#[trigger] order[i]].contains(l),
    decreases order.len(),
{
    if order.len() > 0 {
        let short = order.drop_last();
        lemma_strung(b, short, l);
        let before = log_model::strung(b, short);
        let more = b[order.last()];
        let all = before + more;
        if before.contains(l) {
            assert(all[before.index_of(l)] == l);
            let i = choose|i: int| 0 <= i < short.len() && b[#[trigger] short[i]].contains(l);
            assert(b[order[i]].contains(l));
        }
        if more.contains(l) {
            assert(all[before.len() + more.index_of(l)] == l);
            assert(b[order[order.len() - 1]].contains(l));
        }
        if all.contains(l) {
            let k = all.index_of(l);
            if k < before.len() {
                assert(before[k] == l);
            } else {
                assert(more[k - before.len()] == l);
            }
        }
        if exists|i: int| 0 <= i < order.len() && b[#[trigger] order[i]].contains(l) {
            let i = choose|i: int| 0 <= i < order.len() && b[#[trigger] order[i]].contains(l);
            if i < short.len() {
                assert(b[short[i]].contains(l));
            }
        }
    }
}

/// The last lines of a list are its end: as many as asked for, or all.
pub proof fn law_the_last_lines_are_the_end(s: Seq<LogModel>, n: int)
    requires
        0 <= n,
    ensures
        n <= s.len() ==> text::tail(s, n).len() == n,
        n > s.len() ==> text::tail(s, n).len() == s.len(),
        forall|j: int|
            0 <= j < text::tail(s, n).len() ==> #[trigger] text::tail(s, n)[j] == s[s.len()
                - text::tail(s, n).len() + j],
{
}

/// Without a memory limit, a line that is pushed stands last among those of its
/// process, before it stand those that were there, and of all these the newest are
/// kept, as many as allowed; no other process changes.
pub proof fn law_the_newest_lines_are_kept(
    store: StoreModel,
    l: LogModel,
    after: StoreModel,
    p: Text,
)
    requires
        store.pushed(l, after),
        store.memory_limit is None,
    ensures
        ({
            let had = if store.buffers.dom().contains(l.process) {
                store.buffers[l.process].push(l)
            } else {
                seq![l]
            };
            let kept = after.buffers[l.process];
            &&& after.buffers.dom().contains(l.process)
            &&& had.len() <= store.max_lines ==> kept == had
            &&& had.len() > store.max_lines ==> kept == had.subrange(
                had.len() - store.max_lines,
                had.len() as int,
            )
            &&& p != l.process ==> (after.buffers.dom().contains(p)
                <==> store.buffers.dom().contains(p))
            &&& p != l.process && store.buffers.dom().contains(p) ==> after.buffers[p]
                == store.buffers[p]
            &&& after.outgoing == store.outgoing.push(l)
            &&& after.incoming == store.incoming
            &&& after.max_lines == store.max_lines
        }),
{
    let had = if store.buffers.dom().contains(l.process) {
        store.buffers[l.process].push(l)
    } else {
        seq![l]
    };
    assert(Seq::<LogModel>::empty().push(l) =~= seq![l]);
    if had.len() > store.max_lines {
        assert(had.skip(had.len() - store.max_lines) =~= had.subrange(
            had.len() - store.max_lines,
            had.len() as int,
        ));
    }
}

/// Whether the lines of a store are one less than those of another: a process that had
/// the most lines has lost its oldest.
pub open spec fn one_less(before: Buffers, after: Buffers, p: Text) -> bool {
    &&& before.dom().contains(p)
    &&& before[p].len() > 0
    &&& forall|q: Text| #[trigger] before.dom().contains(q) ==> before[q].len() <= before[p].len()
    &&& after == before.insert(p, before[p].subrange(1, before[p].len() as int))
}

/// Lines are evicted only where the estimate is above nine tenths of the memory limit,
/// and then until it is at most eight tenths of it or no line is left. The last one that
/// went had to go, and it was the oldest of a process that had the most lines.
pub proof fn law_memory_is_freed_when_short_of_it(b: Buffers, limit: usize, after: Buffers)
    requires
        log_model::evicted(b, Some(limit), after),
    ensures
        log_model::held(b) * 10 <= limit * 9 ==> after == b,
        log_model::held(b) * 10 > limit * 9 ==> log_model::held(after) * 10 <= limit * 8
            || forall|k: Text| #[trigger] after.dom().contains(k) ==> after[k].len() == 0,
        after != b ==> exists|before: Buffers, p: Text| #[trigger]
            one_less(before, after, p) && log_model::held(before) * 10 > limit * 8,
{
    if log_model::held(b) > log_model::threshold(limit) {
        let path = choose|path: Seq<Text>| #[trigger]
            log_model::settles(b, log_model::target(limit), path) && after
                == log_model::drop_each(b, path);
        if path.len() > 0 {
            let before = log_model::drop_each(b, path.drop_last());
            let p = path.last();
            assert(before[p].drop_first() =~= before[p].subrange(1, before[p].len() as int));
            assert(one_less(before, after, p));
        }
    }
}

/// With fewer lines allowed, each process keeps its newest, as many as are allowed.
pub proof fn law_trimming_keeps_the_newest(store: StoreModel, max: usize, p: Text)
    requires
        store.buffers.dom().contains(p),
    ensures
        ({
            let after = store.trimmed(max);
            let had = store.buffers[p];
            &&& after.max_lines == max
            &&& after.buffers.dom() == store.buffers.dom()
            &&& had.len() <= max ==> after.buffers[p] == had
            &&& had.len() > max ==> after.buffers[p] == had.subrange(
                had.len() - max,
                had.len() as int,
            )
            &&& after.outgoing == store.outgoing
            &&& after.incoming == store.incoming
            &&& after.memory_limit == store.memory_limit
        }),
{
    let had = store.buffers[p];
    assert(store.trimmed(max).buffers.dom() =~= store.buffers.dom());
    if had.len() > max {
        assert(had.skip(had.len() - max) =~= had.subrange(had.len() - max, had.len() as int));
    }
}

/// A process counts exactly when it has lines.
pub proof fn law_a_process_counts_with_its_lines(b: Buffers, p: Text)
    ensures
        log_model::speaking(b).contains(p) <==> b.dom().contains(p) && b[p].len() > 0,
{
}

/// What is stored adds up: lines of a process that is not there yet count for
/// themselves beside the rest, one each, or by their bytes.
pub proof fn law_stored_lines_add_up(b: Buffers, p: Text, s: Seq<LogModel>, l: LogModel)
    requires
        b.dom().finite(),
        !b.dom().contains(p),
    ensures
        log_model::count(b.insert(p, s)) == log_model::count(b) + s.len(),
        log_model::held(b.insert(p, s)) == log_model::held(b) + log_model::lines_size(s),
        log_model::lines_size(s.push(l)) == log_model::lines_size(s) + log_model::log_size(l),
        log_model::count(Map::empty()) == 0,
        log_model::held(Map::empty()) == 0,
        log_model::log_size(l) >= text::byte_len(l.content) + text::byte_len(l.process),
{
    log_model::lemma_total_insert(b, true, p, s);
    log_model::lemma_total_insert(b, false, p, s);
    assert(b.remove(p) =~= b);
    log_model::lemma_lines_size_push(s, l);
    let none: Buffers = Map::empty();
    log_model::lemma_total_empty(none, true);
    log_model::lemma_total_empty(none, false);
}

/// Whether a condition with a text and a value is among some.
pub open spec fn demands(list: Seq<Condition>, before: Text, after: Text, value: SqlModel) -> bool {
    exists|i: int|
        0 <= i < list.len() && #[trigger] list[i] == (Condition { before, after, value })
}

/// A query of the database demands exactly what it asks for: the process, unless it is
/// all of them, the group, the times with their bounds, and the text.
pub proof fn law_a_database_query_demands_what_is_asked(query: QueryModel)
    ensures
        ({
            let list = sqlite::conditions(query);
            let one = |x: bool| -> int {
                if x {
                    1
                } else {
                    0
                }
            };
            let named = query.process is Some && query.process->0 != "*"@;
            &&& named ==> demands(
                list,
                "process = ?"@,
                ""@,
                SqlModel::Text(query.process->0),
            )
            &&& query.group is Some ==> demands(
                list,
                "group_name = ?"@,
                ""@,
                SqlModel::Text(query.group->0),
            )
            &&& query.since is Some ==> demands(
                list,
                "timestamp_ms >= ?"@,
                ""@,
                SqlModel::Integer(query.since->0 as i64),
            )
            &&& query.until is Some ==> demands(
                list,
                "timestamp_ms <= ?"@,
                ""@,
                SqlModel::Integer(query.until->0 as i64),
            )
            &&& query.search is Some ==> demands(
                list,
                "instr(LOWER(content), LOWER(?"@,
                ")) > 0"@,
                SqlModel::Text(query.search->0),
            )
            &&& list.len() == one(named) + one(query.group is Some) + one(query.since is Some)
                + one(query.until is Some) + one(query.search is Some)
        }),
{
    let list = sqlite::conditions(query);
    let named = query.process is Some && query.process->0 != "*"@;
    let a = sqlite::condition_if(
        if query.effective_process() == "*"@ {
            None
        } else {
            sqlite::text_value(query.process)
        },
        "process = ?"@,
        ""@,
    );
    let b = sqlite::condition_if(sqlite::text_value(query.group), "group_name = ?"@, ""@);
    let c = sqlite::condition_if(sqlite::time_value(query.since), "timestamp_ms >= ?"@, ""@);
    let d = sqlite::condition_if(sqlite::time_value(query.until), "timestamp_ms <= ?"@, ""@);
    let e = sqlite::condition_if(
        sqlite::text_value(query.search),
        "instr(LOWER(content), LOWER(?"@,
        ")) > 0"@,
    );
    assert(list == a + b + c + d + e);
    if named {
        assert(list[0] == a[0]);
    }
    if query.group is Some {
        assert(list[a.len() as int] == b[0]);
    }
    if query.since is Some {
        assert(list[(a.len() + b.len()) as int] == c[0]);
    }
    if query.until is Some {
        assert(list[(a.len() + b.len() + c.len()) as int] == d[0]);
    }
    if query.search is Some {
        assert(list[(a.len() + b.len() + c.len() + d.len()) as int] == e[0]);
    }
}

/// The filter of a database query joins its conditions, each with the number of its
/// place, and binds their values in that order; without conditions there is none.
pub proof fn law_a_filter_numbers_its_values(list: Seq<Condition>, i: int)
    ensures
        list.len() == 0 ==> sqlite::where_text(list).len() == 0,
        list.len() > 0 ==> sqlite::where_text(list) == "WHERE "@ + text::joined(
            sqlite::clauses(list),
            " AND "@,
        ),
        sqlite::clauses(list).len() == list.len(),
        sqlite::bound(list).len() == list.len(),
        0 <= i < list.len() ==> sqlite::clauses(list)[i] == list[i].before + text::decimal(
            (i + 1) as nat,
        ) + list[i].after && sqlite::bound(list)[i] == list[i].value,
{
}

/// Texts that are joined stand in order with the separator between them.
pub proof fn law_joining_puts_the_separator_between(v: Seq<Text>, x: Text, sep: Text)
    ensures
        text::joined(Seq::empty(), sep).len() == 0,
        text::joined(seq![x], sep) == x,
        v.len() > 0 ==> text::joined(v.push(x), sep) == text::joined(v, sep) + sep + x,
{
    assert(v.push(x).drop_last() =~= v);
    assert(seq![x].drop_last() =~= Seq::<Text>::empty());
    assert(seq![x].last() == x);
}

/// What the data takes is its used pages, each of the page size, as far as a number can
/// tell; free pages do not count.
pub proof fn law_free_pages_take_nothing(pages: i64, free: i64, size: i64)
    requires
        0 <= free <= pages,
        0 <= size,
    ensures
        (pages - free) * size <= i64::MAX ==> sqlite::data_bytes(pages, free, size) == (pages
            - free) * size,
        (pages - free) * size > i64::MAX ==> sqlite::data_bytes(pages, free, size) == i64::MAX,
        sqlite::data_bytes(pages, pages, size) == 0,
{
    assert((pages - free) * size >= 0) by (nonlinear_arith)
        requires
            free <= pages,
            0 <= size,
    ;
    assert(0 * size == 0);
}

/// The oldest time is that of a line, and no line is older; the newest likewise; so the
/// oldest is not behind the newest. There is neither exactly when there is no line.
pub proof fn law_times_span_the_lines(
    b: Buffers,
    oldest: Option<u64>,
    newest: Option<u64>,
    p: Text,
    i: int,
)
    requires
        log_model::is_oldest(b, oldest),
        log_model::is_newest(b, newest),
    ensures
        b.dom().contains(p) && 0 <= i < b[p].len() ==> oldest is Some && newest is Some
            && oldest->0 <= b[p][i].timestamp <= newest->0,
        oldest is Some ==> exists|k: Text, j: int|
            b.dom().contains(k) && 0 <= j < b[k].len() && (#[trigger] b[k][j]).timestamp
                == oldest->0,
        newest is Some ==> exists|k: Text, j: int|
            b.dom().contains(k) && 0 <= j < b[k].len() && (#[trigger] b[k][j]).timestamp
                == newest->0,
{
}

/// A page is selected in the order of time, lines of one time in the order in which they
/// were stored; its length and its offset are bound behind the values of the filter. The
/// latest lines are selected from the end, and given in the order of time too.
pub proof fn law_pages_are_selected_by_time(filter: Text, n: nat)
    ensures
        sqlite::select_text(filter, n)
            == "SELECT timestamp_ms, process, group_name, source, output_kind, content FROM log_entries "@
            + filter + " ORDER BY timestamp_ms ASC, id ASC LIMIT ?"@ + text::decimal(n + 1)
            + " OFFSET ?"@ + text::decimal(n + 2),
        sqlite::latest_text(filter, n)
            == "SELECT timestamp_ms, process, group_name, source, output_kind, content FROM (SELECT id, timestamp_ms, process, group_name, source, output_kind, content FROM log_entries"@
            + filter + " ORDER BY timestamp_ms DESC, id DESC LIMIT ?"@ + text::decimal(n + 1)
            + ") ORDER BY timestamp_ms ASC, id ASC"@,
{
}

/// A line is stored under the names of its source and of its stream.
pub proof fn law_rows_name_source_and_stream(l: LogModel)
    ensures
        sqlite::row_of(l).process == l.process,
        sqlite::row_of(l).group_name == l.group,
        sqlite::row_of(l).content == l.content,
        l.source is Process ==> sqlite::row_of(l).source == "process"@,
        l.source is Daemon ==> sqlite::row_of(l).source == "daemon"@,
        l.output_kind is Stdout ==> sqlite::row_of(l).output_kind == "stdout"@,
        l.output_kind is Stderr ==> sqlite::row_of(l).output_kind == "stderr"@,
        l.output_kind is Combined ==> sqlite::row_of(l).output_kind == "combined"@,
{
}

/// A line is in the scope of a query exactly when the query without its text asks for it;
/// a query with no filter asks for every line, and for those of all processes.
pub proof fn law_scope_is_group_and_time(query: QueryModel, l: LogModel)
    ensures
        query.in_scope(l) == asked_for(QueryModel { search: None, ..query }, l),
        log_storage::no_filter().in_scope(l),
        log_storage::no_filter().matches_line(l),
        log_storage::no_filter().effective_process() == "*"@,
        query.process is Some ==> query.effective_process() == query.process->0,
{
}

/// What a source and a stream are stored under is read back as them; two that are not
/// the same are not stored under one name, and nothing else is read.
pub proof fn law_stored_names_are_read_back(s: Text, source: LogSource, kind: OutputKind)
    ensures
        sqlite::source_of(s) == Some(source) <==> s == sqlite::source_text(source),
        sqlite::output_kind_of(s) == Some(kind) <==> s == sqlite::output_kind_text(kind),
        sqlite::source_of(s) is None <==> s != "process"@ && s != "daemon"@,
        sqlite::output_kind_of(s) is None <==> s != "stdout"@ && s != "stderr"@ && s
            != "combined"@,
{
    reveal_strlit("process");
    reveal_strlit("daemon");
    reveal_strlit("stdout");
    reveal_strlit("stderr");
    reveal_strlit("combined");
    assert("process"@.len() != "daemon"@.len());
    assert("stdout"@[3] != "stderr"@[3]);
    assert("stdout"@.len() != "combined"@.len());
    assert("stderr"@.len() != "combined"@.len());
}

/// A count is the number of the database, and none where that is negative.
pub proof fn law_counts_are_those_of_the_database(n: i64)
    requires
        n <= usize::MAX,
    ensures
        n >= 0 ==> sqlite::counted(n) == n,
        n <= 0 ==> sqlite::counted(n) == 0,
{
}

} // verus!
