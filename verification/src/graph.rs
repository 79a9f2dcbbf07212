//! Depth-first search for cycles.

use vstd::prelude::*;
use vstd::set_lib::lemma_len_subset;

verus! {

/// What a search has come to: the nodes it is done with, in the order in which it got done with
/// them, and the cycles it has found.
#[verifier::reject_recursive_types(T)]
pub struct Search<T> {
    pub done: Seq<T>,
    pub found: Seq<Seq<T>>,
}

/// The search after `node` and what is reached through it, when `path` led there; no path is longer
/// than `limit`.
pub open spec fn visit<T>(
    adj: spec_fn(T) -> Seq<T>,
    limit: nat,
    path: Seq<T>,
    node: T,
    s: Search<T>,
) -> Search<T>
    decreases limit - path.len(), 0nat, 0int,
{
    if path.len() >= limit {
        s
    } else {
        let t = visit_edges(adj, limit, path.push(node), 0, s);
        Search { done: t.done.push(node), found: t.found }
    }
}

/// The search after the edges of the last node of `path`, from the one at position `k` on: an edge
/// back onto the path closes a cycle, an edge to a new node leads there.
pub open spec fn visit_edges<T>(
    adj: spec_fn(T) -> Seq<T>,
    limit: nat,
    path: Seq<T>,
    k: int,
    s: Search<T>,
) -> Search<T>
    decreases limit - path.len(), 1nat, adj(path.last()).len() - k,
{
    let next = adj(path.last());
    if k < 0 || k >= next.len() {
        s
    } else {
        let m = next[k];
        let t = if path.contains(m) {
            Search { done: s.done, found: s.found.push(path.skip(path.index_of(m)).push(m)) }
        } else if s.done.contains(m) {
            s
        } else {
            visit(adj, limit, path, m, s)
        };
        visit_edges(adj, limit, path, k + 1, t)
    }
}

/// The search from each of the first `k` nodes that it has not come to before.
pub open spec fn search_first<T>(adj: spec_fn(T) -> Seq<T>, nodes: Seq<T>, k: nat) -> Search<T>
    decreases k,
{
    if k == 0 {
        Search { done: Seq::empty(), found: Seq::empty() }
    } else {
        let s = search_first(adj, nodes, (k - 1) as nat);
        if s.done.contains(nodes[k - 1]) {
            s
        } else {
            visit(adj, nodes.len(), Seq::empty(), nodes[k - 1], s)
        }
    }
}

/// The cycles that a search from all nodes finds.
pub open spec fn cycles_found<T>(adj: spec_fn(T) -> Seq<T>, nodes: Seq<T>) -> Seq<Seq<T>> {
    search_first(adj, nodes, nodes.len()).found
}

/// Whether each step of `w` goes along an edge.
pub open spec fn is_walk<T>(adj: spec_fn(T) -> Seq<T>, w: Seq<T>) -> bool {
    forall|i: int| 0 <= i < w.len() - 1 ==> adj(#[trigger] w[i]).contains(w[i + 1])
}

/// Whether `w` is a walk that ends where it began.
pub open spec fn is_cycle<T>(adj: spec_fn(T) -> Seq<T>, w: Seq<T>) -> bool {
    &&& w.len() >= 2
    &&& w[0] == w.last()
    &&& is_walk(adj, w)
}

/// Whether `w` is a cycle that comes to no node twice before it closes.
pub open spec fn is_simple_cycle<T>(adj: spec_fn(T) -> Seq<T>, w: Seq<T>) -> bool {
    is_cycle(adj, w) && w.drop_last().no_duplicates()
}

/// Whether all edges stay among `nodes`.
pub open spec fn edges_inside<T>(adj: spec_fn(T) -> Seq<T>, nodes: Seq<T>) -> bool {
    forall|a: T, j: int|
        nodes.contains(a) && 0 <= j < adj(a).len() ==> nodes.contains(#[trigger] adj(a)[j])
}

/// Whether `x` stands in front of position `i`.
pub open spec fn stands_before<T>(s: Seq<T>, i: int, x: T) -> bool {
    exists|p: int| 0 <= p < i && #[trigger] s[p] == x
}

/// Whether all edges from nodes of `done` lead to nodes in front of them.
pub open spec fn edges_lead_back<T>(adj: spec_fn(T) -> Seq<T>, done: Seq<T>) -> bool {
    forall|i: int, j: int|
        0 <= i < done.len() && 0 <= j < adj(done[i]).len() ==> stands_before(
            done,
            i,
            #[trigger] adj(done[i])[j],
        )
}

/// What holds all through a search: the path is a walk without repetitions among nodes that the
/// search is not done with, what was found are cycles that repeat no node, and a node with an edge to itself that the
/// search is done with was found.
pub open spec fn search_ok<T>(
    adj: spec_fn(T) -> Seq<T>,
    nodes: Seq<T>,
    path: Seq<T>,
    s: Search<T>,
) -> bool {
    &&& edges_inside(adj, nodes)
    &&& path.no_duplicates()
    &&& is_walk(adj, path)
    &&& forall|i: int| 0 <= i < path.len() ==> nodes.contains(#[trigger] path[i])
    &&& forall|i: int| 0 <= i < path.len() ==> !s.done.contains(#[trigger] path[i])
    &&& forall|i: int| 0 <= i < s.found.len() ==> is_simple_cycle(adj, #[trigger] s.found[i])
    &&& forall|i: int|
        0 <= i < s.done.len() && adj(#[trigger] s.done[i]).contains(s.done[i]) ==> s.found.contains(
            seq![s.done[i], s.done[i]],
        )
}

/// A sequence without repetitions is no longer than one that holds all its values.
pub proof fn lemma_no_longer<T>(s: Seq<T>, t: Seq<T>)
    requires
        s.no_duplicates(),
        forall|i: int| 0 <= i < s.len() ==> t.contains(#[trigger] s[i]),
    ensures
        s.len() <= t.len(),
{
    s.unique_seq_to_set();
    t.lemma_cardinality_of_set();
    assert(s.to_set().subset_of(t.to_set()));
    lemma_len_subset(s.to_set(), t.to_set());
}

pub proof fn lemma_visit<T>(
    adj: spec_fn(T) -> Seq<T>,
    nodes: Seq<T>,
    path: Seq<T>,
    node: T,
    s: Search<T>,
)
    requires
        search_ok(adj, nodes, path, s),
        nodes.contains(node),
        !path.contains(node),
        !s.done.contains(node),
        path.len() > 0 ==> adj(path.last()).contains(node),
    ensures
        path.len() < nodes.len(),
        search_ok(adj, nodes, path.push(node), s),
        search_ok(adj, nodes, path, visit(adj, nodes.len(), path, node, s)),
        visit(adj, nodes.len(), path, node, s).done.contains(node),
        s.done.is_prefix_of(visit(adj, nodes.len(), path, node, s).done),
        s.found.is_prefix_of(visit(adj, nodes.len(), path, node, s).found),
        edges_lead_back(adj, s.done) && visit(adj, nodes.len(), path, node, s).found.len() == s.found.len()
            ==> edges_lead_back(adj, visit(adj, nodes.len(), path, node, s).done),
    decreases nodes.len() - path.len(), 0nat, 0int,
{
    let longer = path.push(node);
    assert forall|i: int| 0 <= i < longer.len() implies nodes.contains(#[trigger] longer[i]) by {
        if i < path.len() {
            assert(longer[i] == path[i]);
        }
    }
    assert forall|i: int| 0 <= i < longer.len() implies !s.done.contains(#[trigger] longer[i]) by {
        if i < path.len() {
            assert(longer[i] == path[i]);
        }
    }
    assert forall|i: int| 0 <= i < longer.len() - 1 implies adj(#[trigger] longer[i]).contains(
        longer[i + 1],
    ) by {
        assert(longer[i] == path[i]);
    }
    lemma_no_longer(longer, nodes);
    lemma_visit_edges(adj, nodes, longer, 0, s);
    let t = visit_edges(adj, nodes.len(), longer, 0, s);
    let u = visit(adj, nodes.len(), path, node, s);
    assert(u.done == t.done.push(node));
    assert(u.done[t.done.len() as int] == node);
    assert forall|i: int| 0 <= i < path.len() implies !u.done.contains(#[trigger] path[i]) by {
        assert(longer[i] == path[i]);
        assert(!t.done.contains(longer[i]));
        if u.done.contains(path[i]) {
            let k = choose|k: int| 0 <= k < u.done.len() && u.done[k] == path[i];
            if k < t.done.len() {
                assert(t.done[k] == path[i]);
            }
        }
    }
    assert forall|i: int|
        0 <= i < u.done.len() && adj(#[trigger] u.done[i]).contains(u.done[i]) implies u.found.contains(
        seq![u.done[i], u.done[i]],
    ) by {
        if i < t.done.len() {
            assert(u.done[i] == t.done[i]);
        } else {
            let edges = adj(node);
            let j = choose|j: int| 0 <= j < edges.len() && edges[j] == node;
            assert(adj(longer.last())[j] == longer.last());
        }
    }
    if edges_lead_back(adj, s.done) && u.found.len() == s.found.len() {
        assert(edges_lead_back(adj, t.done));
        assert forall|i: int, j: int|
            0 <= i < u.done.len() && 0 <= j < adj(u.done[i]).len() implies stands_before(
            u.done,
            i,
            #[trigger] adj(u.done[i])[j],
        ) by {
            if i < t.done.len() {
                assert(u.done[i] == t.done[i]);
                let to = adj(t.done[i])[j];
                let p = choose|p: int| 0 <= p < i && t.done[p] == to;
                assert(u.done[p] == adj(u.done[i])[j]);
            } else {
                assert(t.done.contains(adj(longer.last())[j]));
                let to = adj(longer.last())[j];
                let p = choose|p: int| 0 <= p < t.done.len() && t.done[p] == to;
                assert(u.done[p] == adj(u.done[i])[j]);
            }
        }
    }
}

proof fn lemma_visit_edges<T>(
    adj: spec_fn(T) -> Seq<T>,
    nodes: Seq<T>,
    path: Seq<T>,
    k: int,
    s: Search<T>,
)
    requires
        search_ok(adj, nodes, path, s),
        0 < path.len() <= nodes.len(),
        0 <= k <= adj(path.last()).len(),
    ensures
        search_ok(adj, nodes, path, visit_edges(adj, nodes.len(), path, k, s)),
        s.done.is_prefix_of(visit_edges(adj, nodes.len(), path, k, s).done),
        s.found.is_prefix_of(visit_edges(adj, nodes.len(), path, k, s).found),
        edges_lead_back(adj, s.done) && visit_edges(adj, nodes.len(), path, k, s).found.len() == s.found.len()
            ==> edges_lead_back(adj, visit_edges(adj, nodes.len(), path, k, s).done) && (forall|j: int|
            k <= j < adj(path.last()).len() ==> visit_edges(adj, nodes.len(), path, k, s).done.contains(
                #[trigger] adj(path.last())[j],
            )),
        forall|j: int|
            k <= j < adj(path.last()).len() && #[trigger] adj(path.last())[j] == path.last()
                ==> visit_edges(adj, nodes.len(), path, k, s).found.contains(
                seq![path.last(), path.last()],
            ),
    decreases nodes.len() - path.len(), 1nat, adj(path.last()).len() - k,
{
    let next = adj(path.last());
    if k < next.len() {
        let m = next[k];
        let t = step(adj, nodes.len(), path, m, s);
        assert(path.last() == path[path.len() - 1]);
        assert(nodes.contains(path[path.len() - 1]));
        assert(nodes.contains(adj(path.last())[k]));
        assert(next.contains(m));
        lemma_step(adj, nodes, path, m, s);
        lemma_visit_edges(adj, nodes, path, k + 1, t);
        let u = visit_edges(adj, nodes.len(), path, k, s);
        assert(u == visit_edges(adj, nodes.len(), path, k + 1, t));
        if edges_lead_back(adj, s.done) && u.found.len() == s.found.len() {
            assert(t.found.len() == s.found.len());
            assert forall|j: int| k <= j < next.len() implies u.done.contains(#[trigger] next[j]) by {
                if j == k {
                    assert(t.done.contains(m));
                    let p = choose|p: int| 0 <= p < t.done.len() && t.done[p] == m;
                    assert(u.done[p] == m);
                }
            }
        }
        assert forall|j: int| k <= j < next.len() && #[trigger] next[j] == path.last() implies u.found.contains(
            seq![path.last(), path.last()],
        ) by {
            if j == k {
                let p = choose|p: int| 0 <= p < t.found.len() && t.found[p] == seq![path.last(), path.last()];
                assert(u.found[p] == t.found[p]);
            }
        }
    }
}

/// The search after one edge from the last node of `path`, to `m`.
pub open spec fn step<T>(adj: spec_fn(T) -> Seq<T>, limit: nat, path: Seq<T>, m: T, s: Search<T>) -> Search<T> {
    if path.contains(m) {
        Search { done: s.done, found: s.found.push(path.skip(path.index_of(m)).push(m)) }
    } else if s.done.contains(m) {
        s
    } else {
        visit(adj, limit, path, m, s)
    }
}

pub proof fn lemma_step<T>(
    adj: spec_fn(T) -> Seq<T>,
    nodes: Seq<T>,
    path: Seq<T>,
    m: T,
    s: Search<T>,
)
    requires
        search_ok(adj, nodes, path, s),
        0 < path.len() <= nodes.len(),
        adj(path.last()).contains(m),
        nodes.contains(m),
    ensures
        search_ok(adj, nodes, path, step(adj, nodes.len(), path, m, s)),
        s.done.is_prefix_of(step(adj, nodes.len(), path, m, s).done),
        s.found.is_prefix_of(step(adj, nodes.len(), path, m, s).found),
        edges_lead_back(adj, s.done) && step(adj, nodes.len(), path, m, s).found.len() == s.found.len()
            ==> edges_lead_back(adj, step(adj, nodes.len(), path, m, s).done) && step(
            adj,
            nodes.len(),
            path,
            m,
            s,
        ).done.contains(m),
        m == path.last() ==> step(adj, nodes.len(), path, m, s).found.contains(seq![m, m]),
    decreases nodes.len() - path.len(), 0nat, 1int,
{
    let t = step(adj, nodes.len(), path, m, s);
    if path.contains(m) {
        let at = path.index_of(m);
        assert(0 <= at < path.len() && path[at] == m);
        let c = path.skip(at).push(m);
        assert(c[0] == m);
        assert forall|i: int| 0 <= i < c.len() - 1 implies adj(#[trigger] c[i]).contains(c[i + 1]) by {
            assert(c[i] == path[at + i]);
            if i + 1 < c.len() - 1 {
                assert(c[i + 1] == path[at + i + 1]);
            } else {
                assert(path[at + i] == path.last());
            }
        }
        assert(is_cycle(adj, c));
        assert(c.drop_last() =~= path.skip(at));
        assert(t.found.last() == c);
        assert forall|i: int| 0 <= i < t.found.len() implies is_simple_cycle(
            adj,
            #[trigger] t.found[i],
        ) by {
            if i < s.found.len() {
                assert(t.found[i] == s.found[i]);
            }
        }
        assert forall|i: int|
            0 <= i < t.done.len() && adj(#[trigger] t.done[i]).contains(t.done[i]) implies t.found.contains(
            seq![t.done[i], t.done[i]],
        ) by {
            let pair = seq![s.done[i], s.done[i]];
            let p = choose|p: int| 0 <= p < s.found.len() && s.found[p] == pair;
            assert(t.found[p] == pair);
        }
        if m == path.last() {
            assert(path[path.len() - 1] == m);
            assert(at == path.len() - 1);
            assert(c =~= seq![m, m]);
            assert(t.found[s.found.len() as int] == c);
        }
    } else if s.done.contains(m) {
        if m == path.last() {
            assert(path[path.len() - 1] == m);
        }
    } else {
        lemma_visit(adj, nodes, path, m, s);
        if m == path.last() {
            assert(path[path.len() - 1] == m);
        }
    }
}

pub proof fn lemma_search_first<T>(adj: spec_fn(T) -> Seq<T>, nodes: Seq<T>, k: nat)
    requires
        edges_inside(adj, nodes),
        k <= nodes.len(),
    ensures
        search_ok(adj, nodes, Seq::empty(), search_first(adj, nodes, k)),
        forall|i: int| 0 <= i < k ==> search_first(adj, nodes, k).done.contains(#[trigger] nodes[i]),
        search_first(adj, nodes, k).found.len() == 0 ==> edges_lead_back(
            adj,
            search_first(adj, nodes, k).done,
        ),
    decreases k,
{
    if k > 0 {
        let before = (k - 1) as nat;
        lemma_search_first(adj, nodes, before);
        let s = search_first(adj, nodes, before);
        let t = search_first(adj, nodes, k);
        assert(nodes.contains(nodes[k - 1]));
        if !s.done.contains(nodes[k - 1]) {
            lemma_visit(adj, nodes, Seq::empty(), nodes[k - 1], s);
        }
        assert forall|i: int| 0 <= i < k implies t.done.contains(#[trigger] nodes[i]) by {
            if i < before {
                assert(s.done.contains(nodes[i]));
                let p = choose|p: int| 0 <= p < s.done.len() && s.done[p] == nodes[i];
                assert(t.done[p] == s.done[p]);
            }
        }
    }
}

/// All that a search finds are cycles, none of which comes to a node twice before it closes.
pub proof fn what_is_found_is_a_cycle<T>(adj: spec_fn(T) -> Seq<T>, nodes: Seq<T>, i: int)
    requires
        edges_inside(adj, nodes),
        0 <= i < cycles_found(adj, nodes).len(),
    ensures
        is_simple_cycle(adj, cycles_found(adj, nodes)[i]),
{
    lemma_search_first(adj, nodes, nodes.len());
}

/// A node with an edge to itself is found.
pub proof fn self_loop_is_found<T>(adj: spec_fn(T) -> Seq<T>, nodes: Seq<T>, n: T)
    requires
        edges_inside(adj, nodes),
        nodes.contains(n),
        adj(n).contains(n),
    ensures
        cycles_found(adj, nodes).contains(seq![n, n]),
{
    lemma_search_first(adj, nodes, nodes.len());
    let s = search_first(adj, nodes, nodes.len());
    let i = choose|i: int| 0 <= i < nodes.len() && nodes[i] == n;
    assert(s.done.contains(nodes[i]));
    let p = choose|p: int| 0 <= p < s.done.len() && s.done[p] == n;
    assert(adj(s.done[p]).contains(s.done[p]));
}

/// Where there is a cycle, a search finds one.
pub proof fn a_cycle_is_not_missed<T>(adj: spec_fn(T) -> Seq<T>, nodes: Seq<T>, w: Seq<T>)
    requires
        edges_inside(adj, nodes),
        is_cycle(adj, w),
        nodes.contains(w[0]),
    ensures
        cycles_found(adj, nodes).len() > 0,
{
    lemma_search_first(adj, nodes, nodes.len());
    let s = search_first(adj, nodes, nodes.len());
    if s.found.len() == 0 {
        let i = choose|i: int| 0 <= i < nodes.len() && nodes[i] == w[0];
        assert(s.done.contains(nodes[i]));
        let p = choose|p: int| 0 <= p < s.done.len() && s.done[p] == w[0];
        lemma_no_way_round(adj, s.done, w, p);
    }
}

/// Where all edges lead back, a walk of `n` steps from the node at `p` ends in front of `p`.
proof fn lemma_walk_goes_back<T>(adj: spec_fn(T) -> Seq<T>, done: Seq<T>, w: Seq<T>, p: int, n: int) -> (q:
    int)
    requires
        edges_lead_back(adj, done),
        is_walk(adj, w),
        0 < n < w.len(),
        0 <= p < done.len(),
        done[p] == w[0],
    ensures
        0 <= q < p,
        done[q] == w[n],
    decreases n,
{
    let before = if n == 1 {
        p
    } else {
        lemma_walk_goes_back(adj, done, w, p, n - 1)
    };
    assert(done[before] == w[n - 1]);
    assert(adj(w[n - 1]).contains(w[n - 1 + 1]));
    let edges = adj(w[n - 1]);
    let j = choose|j: int| 0 <= j < edges.len() && edges[j] == w[n];
    assert(adj(done[before])[j] == w[n]);
    let to = adj(done[before])[j];
    choose|q: int| 0 <= q < before && done[q] == to
}

/// Where all edges lead back, no walk ends where it began.
proof fn lemma_no_way_round<T>(adj: spec_fn(T) -> Seq<T>, done: Seq<T>, w: Seq<T>, p: int)
    requires
        edges_lead_back(adj, done),
        is_walk(adj, w),
        w.len() >= 2,
        0 <= p < done.len(),
        done[p] == w[0],
    ensures
        w[0] != w.last(),
    decreases p,
{
    let q = lemma_walk_goes_back(adj, done, w, p, w.len() - 1);
    if w[0] == w.last() {
        lemma_no_way_round(adj, done, w, q);
    }
}

} // verus!
