//! Depth-first walks over a dependency graph.
//!
//! A graph maps a node to the nodes it depends on, in order. A node without an
//! entry depends on nothing.

use crate::config::schema::{self, Group, GroupConfig};
use crate::strmap::StrMap;
use crate::text::{self, list_contains, str_eq, Text};
use vstd::prelude::*;

verus! {

broadcast use crate::text::lemma_texts_push;

/// The model of a dependency graph.
pub type Graph = Map<Text, Seq<Text>>;

/// What a node depends on.
pub open spec fn edges(g: Graph, node: Text) -> Seq<Text> {
    if g.dom().contains(node) {
        g[node]
    } else {
        Seq::empty()
    }
}

/// Walks to `node` along `path`, after the nodes of `done` were finished. Gives
/// the nodes finished after it, or the part of the path that closes a cycle.
pub open spec fn walk(g: Graph, node: Text, path: Seq<Text>, done: Seq<Text>) -> Result<
    Seq<Text>,
    Seq<Text>,
>
    decreases g.dom().difference(path.to_set()).len(), 0nat, 0nat,
    when g.dom().finite()
{
    if path.contains(node) {
        Err(path.skip(first_index(path, node)).push(node))
    } else if done.contains(node) {
        Ok(done)
    } else if !g.dom().contains(node) {
        Ok(done.push(node))
    } else {
        proof {
            lemma_path_grows(g, path, node);
        }
        match walk_all(g, g[node], path.push(node), done) {
            Ok(finished) => Ok(finished.push(node)),
            Err(cycle) => Err(cycle),
        }
    }
}

/// Walks to each node of `nodes` in turn.
pub open spec fn walk_all(
    g: Graph,
    nodes: Seq<Text>,
    path: Seq<Text>,
    done: Seq<Text>,
) -> Result<Seq<Text>, Seq<Text>>
    decreases g.dom().difference(path.to_set()).len(), 1nat, nodes.len(),
    when g.dom().finite()
{
    if nodes.len() == 0 {
        Ok(done)
    } else {
        match walk_all(g, nodes.drop_last(), path, done) {
            Ok(finished) => walk(g, nodes.last(), path, finished),
            Err(cycle) => Err(cycle),
        }
    }
}

/// The position of the first occurrence of a node that occurs.
pub open spec fn first_index(s: Seq<Text>, x: Text) -> int
    decreases s.len(),
{
    if s.len() == 0 || s[0] == x {
        0
    } else {
        1 + first_index(s.drop_first(), x)
    }
}

pub proof fn lemma_first_index(s: Seq<Text>, x: Text, i: int)
    requires
        0 <= i < s.len(),
        s[i] == x,
        forall|j: int| 0 <= j < i ==> s[j] != x,
    ensures
        first_index(s, x) == i,
    decreases s.len(),
{
    if s[0] != x {
        lemma_first_index(s.drop_first(), x, i - 1);
    }
}

proof fn lemma_first_index_found(s: Seq<Text>, x: Text)
    requires
        s.contains(x),
    ensures
        0 <= first_index(s, x) < s.len(),
        s[first_index(s, x)] == x,
        forall|j: int| 0 <= j < first_index(s, x) ==> s[j] != x,
    decreases s.len(),
{
    if s[0] != x {
        let i = s.index_of(x);
        assert(s.drop_first()[i - 1] == x);
        lemma_first_index_found(s.drop_first(), x);
        assert forall|j: int| 0 <= j < first_index(s, x) implies s[j] != x by {
            if j > 0 {
                assert(s[j] == s.drop_first()[j - 1]);
            }
        }
    }
}

/// A longer path leaves fewer nodes to walk to.
pub proof fn lemma_path_grows(g: Graph, path: Seq<Text>, node: Text)
    requires
        g.dom().finite(),
        g.dom().contains(node),
        !path.contains(node),
    ensures
        g.dom().difference(path.push(node).to_set()).finite(),
        g.dom().difference(path.push(node).to_set()).len() < g.dom().difference(
            path.to_set(),
        ).len(),
{
    let a = g.dom().difference(path.to_set());
    let b = g.dom().difference(path.push(node).to_set());
    assert(path.push(node)[path.len() as int] == node);
    assert forall|x: Text| b.contains(x) implies a.contains(x) && x != node by {
        if path.contains(x) {
            assert(path.push(node)[path.index_of(x)] == x);
        }
    }
    assert(b.subset_of(a.remove(node)));
    vstd::set_lib::lemma_set_subset_finite(a.remove(node), b);
    vstd::set_lib::lemma_len_subset(b, a.remove(node));
}

/// The dependency graph of a list of groups: of two groups with one name, the
/// later counts.
pub open spec fn dependency_graph(groups: Seq<GroupConfig>) -> Graph
    decreases groups.len(),
{
    if groups.len() == 0 {
        Map::empty()
    } else {
        dependency_graph(groups.drop_last()).insert(groups.last().name, groups.last().depends_on)
    }
}

/// The names of a list of groups.
pub open spec fn group_names(groups: Seq<GroupConfig>) -> Seq<Text> {
    Seq::new(groups.len(), |i: int| groups[i].name)
}

/// Builds the dependency graph of a list of groups.
pub(crate) fn build_graph(groups: &Vec<Group>) -> (r: StrMap<Vec<String>>)
    ensures
        r@ == dependency_graph(schema::groups(groups@)),
        r@.dom().finite(),
{
    let mut g: StrMap<Vec<String>> = StrMap::new();
    let ghost all = schema::groups(groups@);
    let mut i: usize = 0;
    assert(all.take(0) =~= Seq::<GroupConfig>::empty());
    while i < groups.len()
        invariant
            0 <= i <= groups.len(),
            all == schema::groups(groups@),
            g@ == dependency_graph(all.take(i as int)),
        decreases groups.len() - i,
    {
        assert(all.take(i + 1).drop_last() =~= all.take(i as int));
        let deps = groups[i].depends_on.clone();
        assert(deps.deep_view() =~= all[i as int].depends_on);
        g.insert(groups[i].name.clone(), deps);
        i = i + 1;
    }
    assert(all.take(all.len() as int) =~= all);
    let _ = g.len();
    g
}

/// Walks to a node; `path` and `done` are updated as the walk goes. A cycle is
/// handed out as soon as the path closes one.
pub(crate) fn visit(
    g: &StrMap<Vec<String>>,
    node: &str,
    path: &mut Vec<String>,
    done: &mut Vec<String>,
) -> (r: Result<(), Vec<String>>)
    requires
        g@.dom().finite(),
    ensures
        match walk(g@, node@, text::texts(old(path)@), text::texts(old(done)@)) {
            Ok(finished) => r is Ok && text::texts(final(done)@) == finished && text::texts(
                final(path)@,
            ) == text::texts(old(path)@),
            Err(cycle) => r is Err && text::texts(r->Err_0@) == cycle,
        },
    decreases g@.dom().difference(text::texts(old(path)@).to_set()).len(),
{
    let ghost path0 = text::texts(path@);
    let ghost done0 = text::texts(done@);
    if list_contains(path.as_slice(), node) {
        let mut start: usize = 0;
        while start < path.len() && !str_eq(path[start].as_str(), node)
            invariant
                0 <= start <= path.len(),
                path0 == text::texts(path@),
                forall|j: int| 0 <= j < start ==> path0[j] != node@,
            decreases path.len() - start,
        {
            start = start + 1;
        }
        proof {
            let k = path0.index_of(node@);
            assert(path0[k] == node@);
            assert(start <= k);
            lemma_first_index(path0, node@, start as int);
        }
        let mut cycle: Vec<String> = Vec::new();
        let mut i: usize = start;
        assert(text::texts(cycle@) =~= path0.subrange(start as int, start as int));
        while i < path.len()
            invariant
                start <= i <= path.len(),
                path0 == text::texts(path@),
                text::texts(cycle@) == path0.subrange(start as int, i as int),
            decreases path.len() - i,
        {
            cycle.push(path[i].clone());
            i = i + 1;
            assert(path0.subrange(start as int, i as int) =~= path0.subrange(
                start as int,
                i - 1,
            ).push(path0[i - 1]));
        }
        cycle.push(node.to_owned());
        assert(path0.subrange(start as int, path0.len() as int) =~= path0.skip(start as int));
        return Err(cycle);
    }
    if list_contains(done.as_slice(), node) {
        return Ok(());
    }
    if let Some(next) = g.get(node) {
        proof {
            lemma_path_grows(g@, path0, node@);
        }
        path.push(node.to_owned());
        let ghost path1 = path0.push(node@);
        let ghost list = text::texts(next@);
        assert(list =~= g@[node@]);
        let mut i: usize = 0;
        assert(list.take(0) =~= Seq::<Text>::empty());
        while i < next.len()
            invariant
                0 <= i <= next.len(),
                list == text::texts(next@),
                list == g@[node@],
                g@.dom().finite(),
                g@.dom().contains(node@),
                !path0.contains(node@),
                !done0.contains(node@),
                path0 == text::texts(old(path)@),
                done0 == text::texts(old(done)@),
                path1 == path0.push(node@),
                text::texts(path@) == path1,
                g@.dom().difference(path1.to_set()).len() < g@.dom().difference(
                    path0.to_set(),
                ).len(),
                walk_all(g@, list.take(i as int), path1, done0) == Ok::<Seq<Text>, Seq<Text>>(
                    text::texts(done@),
                ),
            decreases next.len() - i,
        {
            assert(list.take(i + 1).drop_last() =~= list.take(i as int));
            let step = visit(g, next[i].as_str(), path, done);
            match step {
                Ok(()) => {},
                Err(cycle) => {
                    proof {
                        lemma_walk_all_stops(g@, list, path1, done0, i + 1);
                    }
                    return Err(cycle);
                },
            }
            i = i + 1;
        }
        assert(list.take(list.len() as int) =~= list);
        let ghost full = path@;
        let _ = path.pop();
        proof {
            assert forall|j: int| 0 <= j < path0.len() implies text::texts(path@)[j] == path0[j] by {
                assert(text::texts(full)[j] == path1[j]);
            }
            assert(text::texts(full).len() == path1.len());
            assert(text::texts(path@) =~= path0);
        }
    }
    done.push(node.to_owned());
    Ok(())
}

/// Once a walk has closed a cycle, the nodes after it change nothing.
proof fn lemma_walk_all_stops(
    g: Graph,
    nodes: Seq<Text>,
    path: Seq<Text>,
    done: Seq<Text>,
    n: int,
)
    requires
        g.dom().finite(),
        0 <= n <= nodes.len(),
        walk_all(g, nodes.take(n), path, done) is Err,
    ensures
        walk_all(g, nodes, path, done) == walk_all(g, nodes.take(n), path, done),
    decreases nodes.len(),
{
    if n == nodes.len() {
        assert(nodes.take(n) =~= nodes);
    } else {
        assert(nodes.drop_last().take(n) =~= nodes.take(n));
        lemma_walk_all_stops(g, nodes.drop_last(), path, done, n);
    }
}

/// Walks to every group in turn.
pub(crate) fn visit_groups(groups: &Vec<Group>) -> (r: Result<Vec<String>, Vec<String>>)
    ensures
        match group_order(schema::groups(groups@)) {
            Ok(order) => r is Ok && text::texts(r->Ok_0@) == order,
            Err(cycle) => r is Err && text::texts(r->Err_0@) == cycle,
        },
{
    let g = build_graph(groups);
    let ghost names = group_names(schema::groups(groups@));
    let mut path: Vec<String> = Vec::new();
    let mut done: Vec<String> = Vec::new();
    let mut i: usize = 0;
    proof {
        assert(names.take(0) =~= Seq::<Text>::empty());
        assert(text::texts(path@) =~= Seq::<Text>::empty());
        assert(text::texts(done@) =~= Seq::<Text>::empty());
    }
    while i < groups.len()
        invariant
            0 <= i <= groups.len(),
            names == group_names(schema::groups(groups@)),
            g@ == dependency_graph(schema::groups(groups@)),
            g@.dom().finite(),
            text::texts(path@) == Seq::<Text>::empty(),
            walk_all(g@, names.take(i as int), Seq::empty(), Seq::empty()) == Ok::<
                Seq<Text>,
                Seq<Text>,
            >(text::texts(done@)),
        decreases groups.len() - i,
    {
        assert(names.take(i + 1).drop_last() =~= names.take(i as int));
        match visit(&g, groups[i].name.as_str(), &mut path, &mut done) {
            Ok(()) => {},
            Err(cycle) => {
                proof {
                    lemma_walk_all_stops(g@, names, Seq::empty(), Seq::empty(), i + 1);
                }
                return Err(cycle);
            },
        }
        i = i + 1;
    }
    assert(names.take(names.len() as int) =~= names);
    Ok(done)
}

/// Whether each node of `s` stands behind everything it depends on.
pub open spec fn dependencies_first(g: Graph, s: Seq<Text>) -> bool {
    forall|i: int, d: Text|
        0 <= i < s.len() && #[trigger] edges(g, s[i]).contains(d) ==> s.take(i).contains(d)
}

/// Whether `p` leads along dependencies, from its first node to its last.
pub open spec fn is_walk(g: Graph, p: Seq<Text>) -> bool {
    forall|i: int| 0 <= i < p.len() - 1 ==> edges(g, #[trigger] p[i]).contains(p[i + 1])
}

/// Whether `p` leads along dependencies back to where it started.
pub open spec fn is_cycle(g: Graph, p: Seq<Text>) -> bool {
    p.len() >= 2 && p[0] == p.last() && is_walk(g, p)
}

/// What a walk that closes no cycle has finished: each node once, behind
/// everything it depends on, and the node itself among them.
proof fn lemma_walk_ok(g: Graph, node: Text, path: Seq<Text>, done: Seq<Text>)
    requires
        g.dom().finite(),
        done.no_duplicates(),
        dependencies_first(g, done),
        forall|x: Text| #[trigger] done.contains(x) ==> !path.contains(x),
        walk(g, node, path, done) is Ok,
    ensures
        ({
            let finished = walk(g, node, path, done)->Ok_0;
            &&& finished.no_duplicates()
            &&& dependencies_first(g, finished)
            &&& finished.contains(node)
            &&& finished.len() >= done.len()
            &&& finished.take(done.len() as int) == done
            &&& forall|x: Text| #[trigger] finished.contains(x) ==> !path.contains(x)
        }),
    decreases g.dom().difference(path.to_set()).len(), 0nat, 0nat,
{
    assert(done.take(done.len() as int) =~= done);
    if done.contains(node) {
    } else if !g.dom().contains(node) {
        lemma_push_finished(g, node, path, done);
        assert(done.push(node).take(done.len() as int) =~= done);
    } else {
        let path1 = path.push(node);
        lemma_path_grows(g, path, node);
        assert forall|x: Text| #[trigger] done.contains(x) implies !path1.contains(x) by {
            if path1.contains(x) {
                let i = path1.index_of(x);
                if i < path.len() {
                    assert(path[i] == x);
                }
            }
        }
        lemma_walk_all_ok(g, g[node], path1, done);
        let mid = walk_all(g, g[node], path1, done)->Ok_0;
        assert forall|x: Text| #[trigger] mid.contains(x) implies !path.contains(x) by {
            if path.contains(x) {
                assert(path1[path.index_of(x)] == x);
            }
        }
        assert(!mid.contains(node)) by {
            assert(path1[path.len() as int] == node);
        }
        lemma_push_finished(g, node, path, mid);
        assert(mid.push(node).take(done.len() as int) =~= mid.take(done.len() as int));
    }
}

/// Appending a node whose dependencies are all finished.
proof fn lemma_push_finished(g: Graph, node: Text, path: Seq<Text>, done: Seq<Text>)
    requires
        done.no_duplicates(),
        dependencies_first(g, done),
        !done.contains(node),
        !path.contains(node),
        forall|x: Text| #[trigger] done.contains(x) ==> !path.contains(x),
        forall|d: Text| #[trigger] edges(g, node).contains(d) ==> done.contains(d),
    ensures
        done.push(node).no_duplicates(),
        dependencies_first(g, done.push(node)),
        done.push(node).contains(node),
        forall|x: Text| #[trigger] done.push(node).contains(x) ==> !path.contains(x),
{
    let s = done.push(node);
    assert(s[done.len() as int] == node);
    assert forall|i: int, d: Text|
        0 <= i < s.len() && #[trigger] edges(g, s[i]).contains(d) implies s.take(i).contains(d) by {
        if i < done.len() {
            assert(s[i] == done[i]);
            assert(s.take(i) =~= done.take(i));
        } else {
            assert(s.take(i) =~= done);
        }
    }
    assert forall|x: Text| #[trigger] s.contains(x) implies !path.contains(x) by {
        let i = s.index_of(x);
        if i < done.len() {
            assert(done[i] == x);
            assert(done.contains(x));
        }
    }
}

proof fn lemma_walk_all_ok(g: Graph, nodes: Seq<Text>, path: Seq<Text>, done: Seq<Text>)
    requires
        g.dom().finite(),
        done.no_duplicates(),
        dependencies_first(g, done),
        forall|x: Text| #[trigger] done.contains(x) ==> !path.contains(x),
        walk_all(g, nodes, path, done) is Ok,
    ensures
        ({
            let finished = walk_all(g, nodes, path, done)->Ok_0;
            &&& finished.no_duplicates()
            &&& dependencies_first(g, finished)
            &&& forall|x: Text| #[trigger] nodes.contains(x) ==> finished.contains(x)
            &&& finished.len() >= done.len()
            &&& finished.take(done.len() as int) == done
            &&& forall|x: Text| #[trigger] finished.contains(x) ==> !path.contains(x)
        }),
    decreases g.dom().difference(path.to_set()).len(), 1nat, nodes.len(),
{
    if nodes.len() == 0 {
        assert(done.take(done.len() as int) =~= done);
    } else {
        lemma_walk_all_ok(g, nodes.drop_last(), path, done);
        let mid = walk_all(g, nodes.drop_last(), path, done)->Ok_0;
        lemma_walk_ok(g, nodes.last(), path, mid);
        let finished = walk(g, nodes.last(), path, mid)->Ok_0;
        assert(finished.take(done.len() as int) =~= finished.take(mid.len() as int).take(
            done.len() as int,
        ));
        assert forall|x: Text| #[trigger] nodes.contains(x) implies finished.contains(x) by {
            let i = nodes.index_of(x);
            if i < nodes.len() - 1 {
                assert(nodes.drop_last()[i] == x);
                assert(nodes.drop_last().contains(x));
                let j = mid.index_of(x);
                assert(finished.take(mid.len() as int)[j] == x);
                assert(finished[j] == x);
            }
        }
    }
}

/// A walk that closes a cycle hands out one.
proof fn lemma_walk_err(g: Graph, node: Text, path: Seq<Text>, done: Seq<Text>)
    requires
        g.dom().finite(),
        is_walk(g, path.push(node)),
        walk(g, node, path, done) is Err,
    ensures
        is_cycle(g, walk(g, node, path, done)->Err_0),
    decreases g.dom().difference(path.to_set()).len(), 0nat, 0nat,
{
    if path.contains(node) {
        lemma_first_index_found(path, node);
        let k = first_index(path, node);
        let cycle = path.skip(k).push(node);
        assert(cycle[0] == path[k]);
        assert forall|i: int| 0 <= i < cycle.len() - 1 implies edges(
            g,
            #[trigger] cycle[i],
        ).contains(cycle[i + 1]) by {
            assert(cycle[i] == path.push(node)[k + i]);
            assert(cycle[i + 1] == path.push(node)[k + i + 1]);
        }
    } else if done.contains(node) || !g.dom().contains(node) {
    } else {
        lemma_path_grows(g, path, node);
        lemma_walk_all_err(g, g[node], path.push(node), done);
    }
}

proof fn lemma_walk_all_err(g: Graph, nodes: Seq<Text>, path: Seq<Text>, done: Seq<Text>)
    requires
        g.dom().finite(),
        is_walk(g, path),
        path.len() > 0 ==> forall|x: Text| #[trigger]
            nodes.contains(x) ==> edges(g, path.last()).contains(x),
        walk_all(g, nodes, path, done) is Err,
    ensures
        is_cycle(g, walk_all(g, nodes, path, done)->Err_0),
    decreases g.dom().difference(path.to_set()).len(), 1nat, nodes.len(),
{
    if nodes.len() > 0 {
        let before = walk_all(g, nodes.drop_last(), path, done);
        if before is Err {
            assert forall|x: Text| #[trigger] nodes.drop_last().contains(x) implies nodes.contains(
                x,
            ) by {
                assert(nodes[nodes.drop_last().index_of(x)] == x);
            }
            lemma_walk_all_err(g, nodes.drop_last(), path, done);
        } else {
            let p = path.push(nodes.last());
            assert(nodes.contains(nodes.last()));
            assert forall|i: int| 0 <= i < p.len() - 1 implies edges(g, #[trigger] p[i]).contains(
                p[i + 1],
            ) by {
                if i < path.len() - 1 {
                    assert(p[i] == path[i] && p[i + 1] == path[i + 1]);
                } else {
                    assert(p[i] == path.last());
                }
            }
            lemma_walk_err(g, nodes.last(), path, before->Ok_0);
        }
    }
}

/// No cycle leads through a list in which everything stands behind what it
/// depends on.
proof fn lemma_no_cycle(g: Graph, s: Seq<Text>, p: Seq<Text>)
    requires
        s.no_duplicates(),
        dependencies_first(g, s),
        s.contains(p[0]),
    ensures
        !is_cycle(g, p),
{
    if is_cycle(g, p) {
        lemma_walk_goes_back(g, s, p, p.len() - 1);
    }
}

/// Along dependencies the position in such a list falls.
proof fn lemma_walk_goes_back(g: Graph, s: Seq<Text>, p: Seq<Text>, n: int)
    requires
        s.no_duplicates(),
        dependencies_first(g, s),
        is_walk(g, p),
        p.len() > 0,
        s.contains(p[0]),
        0 <= n < p.len(),
    ensures
        s.contains(p[n]),
        n > 0 ==> s.index_of(p[n]) < s.index_of(p[0]),
    decreases n,
{
    if n > 0 {
        lemma_walk_goes_back(g, s, p, n - 1);
        let i = s.index_of(p[n - 1]);
        assert(s[i] == p[n - 1]);
        assert(edges(g, p[n - 1]).contains(p[n - 1 + 1]));
        assert(edges(g, s[i]).contains(p[n]));
        assert(s.take(i).contains(p[n]));
        let j = s.take(i).index_of(p[n]);
        assert(s[j] == p[n]);
        assert(s.contains(p[n]));
        assert(s.index_of(p[n]) == j);
    }
}

/// The nodes of the dependency graph of a list of groups are the groups.
proof fn lemma_graph_nodes(groups: Seq<GroupConfig>)
    ensures
        forall|x: Text| #[trigger]
            dependency_graph(groups).dom().contains(x) <==> group_names(groups).contains(x),
        dependency_graph(groups).dom().finite(),
    decreases groups.len(),
{
    let names = group_names(groups);
    if groups.len() > 0 {
        lemma_graph_nodes(groups.drop_last());
        let init = group_names(groups.drop_last());
        assert forall|x: Text| #[trigger]
            dependency_graph(groups).dom().contains(x) <==> names.contains(x) by {
            assert(dependency_graph(groups.drop_last()).dom().contains(x) <==> init.contains(x));
            if init.contains(x) {
                assert(names[init.index_of(x)] == x);
            }
            if names.contains(x) {
                let i = names.index_of(x);
                if i < init.len() {
                    assert(init[i] == x);
                }
            }
            assert(names[groups.len() - 1] == groups.last().name);
        }
    }
}

/// The order of a list of groups, if there is one, or a cycle among them.
pub open spec fn group_order(groups: Seq<GroupConfig>) -> Result<Seq<Text>, Seq<Text>> {
    walk_all(dependency_graph(groups), group_names(groups), Seq::empty(), Seq::empty())
}

/// Groups that have an order stand in it once each, every group behind
/// everything that it depends on.
pub proof fn law_order_respects_dependencies(groups: Seq<GroupConfig>)
    requires
        group_order(groups) is Ok,
    ensures
        ({
            let order = group_order(groups)->Ok_0;
            &&& order.no_duplicates()
            &&& dependencies_first(dependency_graph(groups), order)
            &&& forall|i: int|
                0 <= i < groups.len() ==> order.contains((#[trigger] groups[i]).name)
        }),
{
    let g = dependency_graph(groups);
    let names = group_names(groups);
    lemma_graph_nodes(groups);
    assert(Seq::<Text>::empty().no_duplicates());
    lemma_walk_all_ok(g, names, Seq::empty(), Seq::empty());
    let order = group_order(groups)->Ok_0;
    assert forall|i: int| 0 <= i < groups.len() implies order.contains(
        (#[trigger] groups[i]).name,
    ) by {
        assert(names[i] == groups[i].name);
        assert(names.contains(groups[i].name));
    }
}

/// Groups have no order exactly when their dependencies form a cycle; the cycle
/// reported is one.
pub proof fn law_order_fails_only_on_a_cycle(groups: Seq<GroupConfig>)
    ensures
        group_order(groups) is Err ==> is_cycle(
            dependency_graph(groups),
            group_order(groups)->Err_0,
        ),
        group_order(groups) is Ok ==> forall|p: Seq<Text>| !is_cycle(dependency_graph(groups), p),
{
    let g = dependency_graph(groups);
    let names = group_names(groups);
    lemma_graph_nodes(groups);
    if group_order(groups) is Err {
        lemma_walk_all_err(g, names, Seq::empty(), Seq::empty());
    } else {
        law_order_respects_dependencies(groups);
        let order = group_order(groups)->Ok_0;
        assert forall|p: Seq<Text>| !is_cycle(g, p) by {
            if is_cycle(g, p) {
                assert(edges(g, p[0]).contains(p[1]));
                assert(g.dom().contains(p[0]));
                assert(names.contains(p[0]));
                let i = names.index_of(p[0]);
                assert(order.contains(groups[i].name));
                lemma_no_cycle(g, order, p);
            }
        }
    }
}

} // verus!
