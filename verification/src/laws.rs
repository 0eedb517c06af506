//! The guarantees of the draining order, stated and proved over the
//! specification view of [`DependencyGraph`]: dependencies are always yielded
//! before their dependents, nothing is yielded twice, an acyclic graph drains
//! completely, and the introspection operations agree with each other.

use vstd::prelude::*;
use vstd::set_lib::lemma_len_subset;
use vstd::set_lib::lemma_int_range;
use vstd::set_lib::set_int_range;

use crate::graph::DependencyGraph;
use crate::graph::Node;
use crate::graph::Vertex;
use crate::graph::first_match;
use crate::graph::graph_vertices;

verus! {

impl<'a, N: Node> DependencyGraph<'a, N> {
    /// Some edge runs from vertex `a` to vertex `b`.
    pub open spec fn has_edge(self, a: int, b: int) -> bool {
        exists|k: int|
            0 <= k < self.spec_edges().len() && (#[trigger] self.spec_edges()[k]).from == a
                && self.spec_edges()[k].to == b
    }

    /// `p` is a walk through alive vertices, each consecutive pair joined by
    /// an edge.
    pub open spec fn is_live_path(self, p: Seq<int>) -> bool {
        &&& p.len() >= 1
        &&& forall|k: int| 0 <= k < p.len() ==> self.vertex_alive(#[trigger] p[k])
        &&& forall|k: int| 0 <= k < p.len() - 1 ==> self.has_edge(#[trigger] p[k], p[k + 1])
    }

    /// Some dependency cycle survives among the alive vertices. A self-match
    /// produces the smallest instance, a path of the shape `[v, v]`.
    pub open spec fn has_cycle(self) -> bool {
        exists|p: Seq<int>|
            self.is_live_path(p) && p.len() >= 2 && p[0] == p[p.len() - 1]
    }

    /// The alive vertices among the first `v`, as a set.
    pub open spec fn live_set_upto(self, v: int) -> Set<int> {
        Set::new(|w: int| 0 <= w < v && self.spec_alive()[w])
    }
}

/// Every vertex is yielded only after every vertex it points at: if the
/// `k`-th yielded vertex has an edge to `b`, then `b` was yielded at some
/// earlier position. Dependencies always come out of the drain before their
/// dependents.
pub proof fn lemma_dependencies_yielded_first<'a, N: Node>(
    g: DependencyGraph<'a, N>,
    k: int,
    e: int,
)
    requires
        g.wf(),
        0 <= k < g.spec_yielded().len(),
        0 <= e < g.spec_edges().len(),
        g.spec_edges()[e].from == g.spec_yielded()[k],
    ensures
        exists|j: int| 0 <= j < k && g.spec_yielded()[j] == g.spec_edges()[e].to,
{
}

/// No vertex is ever yielded twice: the drain history has no duplicates.
pub proof fn lemma_each_vertex_yielded_once<'a, N: Node>(g: DependencyGraph<'a, N>)
    requires
        g.wf(),
    ensures
        g.spec_yielded().no_duplicates(),
{
}

/// With no input, the graph has no vertices and draining yields nothing.
pub proof fn lemma_empty_input_yields_nothing<'a, N: Node>(g: DependencyGraph<'a, N>)
    requires
        g.wf(),
        g.spec_nodes().len() == 0,
        g.spec_vertices() == graph_vertices(g.spec_nodes()),
    ensures
        g.spec_vertices().len() == 0,
        g.spec_live_count() == 0,
        g.spec_choice() is None,
{
    assert(g.spec_vertices().len() == 0);
}

/// A dependency-free node is immediately terminal whenever it is alive: no
/// edge at all leaves its vertex.
pub proof fn lemma_dependency_free_is_terminal<'a, N: Node>(g: DependencyGraph<'a, N>, v: int)
    requires
        g.wf(),
        0 <= v < g.spec_nodes().len(),
        g.spec_nodes()[v].spec_dependencies().len() == 0,
        g.vertex_alive(v),
    ensures
        g.spec_terminal(v),
{
    assert forall|k: int|
        0 <= k < g.spec_edges().len() && (#[trigger] g.spec_edges()[k]).from == v implies !g
        .spec_alive()[g.spec_edges()[k].to as int] by {
        assert(g.edge_ok(k));
    }
}

/// `is_internally_resolvable` and `unresolved_dependencies` agree at every
/// graph state: the former is true exactly when the latter is empty.
pub proof fn lemma_resolvable_iff_no_unresolved<'a, N: Node>(g: DependencyGraph<'a, N>)
    requires
        g.wf(),
    ensures
        g.spec_internally_resolvable() <==> g.spec_unresolved().len() == 0,
{
    lemma_unresolved_upto_agrees(g, g.spec_vertices().len() as int);
}

/// The unresolved list over the first `v` vertices is empty exactly when no
/// alive vertex below `v` is Unresolved.
proof fn lemma_unresolved_upto_agrees<'a, N: Node>(g: DependencyGraph<'a, N>, v: int)
    requires
        g.wf(),
        0 <= v <= g.spec_vertices().len(),
    ensures
        g.spec_unresolved_upto(v).len() == 0 <==> (forall|w: int|
            0 <= w < v && (#[trigger] g.spec_alive()[w]) ==> g.spec_vertices()[w] is Resolved),
    decreases v,
{
    if v > 0 {
        lemma_unresolved_upto_agrees(g, v - 1);
    }
}

/// `scan_from` returning nothing means no vertex up to `hi` is terminal.
proof fn lemma_scan_none_means_no_terminal<'a, N: Node>(g: DependencyGraph<'a, N>, hi: int)
    requires
        g.scan_from(hi) is None,
    ensures
        forall|w: int| 0 <= w <= hi ==> !g.spec_terminal(w),
    decreases hi + 1,
{
    if hi >= 0 {
        lemma_scan_none_means_no_terminal(g, hi - 1);
    }
}

/// `scan_from` returning a vertex means some terminal vertex exists.
proof fn lemma_scan_some_terminal<'a, N: Node>(g: DependencyGraph<'a, N>, hi: int)
    requires
        g.scan_from(hi) is Some,
    ensures
        exists|v: int| g.spec_terminal(v),
    decreases hi + 1,
{
    if hi >= 0 {
        if g.spec_terminal(hi) {
        } else {
            lemma_scan_some_terminal(g, hi - 1);
        }
    }
}

/// A positive live count below `v` exhibits an alive vertex.
proof fn lemma_live_upto_positive<'a, N: Node>(g: DependencyGraph<'a, N>, v: int)
    requires
        g.live_upto(v) > 0,
    ensures
        exists|w: int| 0 <= w < v && g.spec_alive()[w],
    decreases v,
{
    if v > 0 {
        if g.spec_alive()[v - 1] {
            assert(0 <= v - 1 < v && g.spec_alive()[v - 1]);
        } else {
            lemma_live_upto_positive(g, v - 1);
        }
    }
}

/// A zero live count below `v` means no vertex below `v` is alive.
proof fn lemma_live_upto_zero<'a, N: Node>(g: DependencyGraph<'a, N>, v: int)
    requires
        g.live_upto(v) == 0,
    ensures
        forall|w: int| 0 <= w < v ==> !g.spec_alive()[w],
    decreases v,
{
    if v > 0 {
        lemma_live_upto_zero(g, v - 1);
    }
}

/// An alive vertex below `w` makes the live count up to `w` positive.
proof fn lemma_alive_live_positive<'a, N: Node>(g: DependencyGraph<'a, N>, v: int, w: int)
    requires
        0 <= v < w,
        g.spec_alive()[v],
    ensures
        g.live_upto(w) > 0,
    decreases w,
{
    if v < w - 1 {
        lemma_alive_live_positive(g, v, w - 1);
    }
}

/// The recursive live count agrees with the cardinality of the live set.
proof fn lemma_live_set_cardinality<'a, N: Node>(g: DependencyGraph<'a, N>, v: int)
    requires
        0 <= v,
    ensures
        g.live_set_upto(v).finite(),
        g.live_set_upto(v).len() == g.live_upto(v),
    decreases v,
{
    broadcast use vstd::set::group_set_axioms;

    if v == 0 {
        assert(g.live_set_upto(0) =~= Set::<int>::empty());
    } else {
        lemma_live_set_cardinality(g, v - 1);
        if g.spec_alive()[v - 1] {
            assert(g.live_set_upto(v) =~= g.live_set_upto(v - 1).insert(v - 1));
            assert(!g.live_set_upto(v - 1).contains(v - 1));
        } else {
            assert(g.live_set_upto(v) =~= g.live_set_upto(v - 1));
        }
    }
}

/// A contiguous part of a live path is itself a live path.
proof fn lemma_subpath<'a, N: Node>(g: DependencyGraph<'a, N>, p: Seq<int>, a: int, b: int)
    requires
        g.is_live_path(p),
        0 <= a < b <= p.len(),
    ensures
        g.is_live_path(p.subrange(a, b)),
{
    let q = p.subrange(a, b);
    assert forall|k: int| 0 <= k < q.len() implies g.vertex_alive(#[trigger] q[k]) by {
        assert(q[k] == p[a + k]);
    }
    assert forall|k: int| 0 <= k < q.len() - 1 implies g.has_edge(#[trigger] q[k], q[k + 1]) by {
        assert(q[k] == p[a + k]);
        assert(q[k + 1] == p[a + k + 1]);
    }
}

/// When every alive vertex has an alive successor, live paths of every
/// length exist.
proof fn lemma_build_path<'a, N: Node>(g: DependencyGraph<'a, N>, m: int)
    requires
        m >= 1,
        exists|v: int| g.vertex_alive(v),
        forall|v: int|
            #[trigger] g.vertex_alive(v) ==> exists|u: int| g.vertex_alive(u) && g.has_edge(v, u),
    ensures
        exists|p: Seq<int>| g.is_live_path(p) && p.len() == m,
    decreases m,
{
    if m == 1 {
        let v = choose|v: int| g.vertex_alive(v);
        let p = seq![v];
        assert(g.is_live_path(p)) by {
            assert(p[0] == v);
        }
    } else {
        lemma_build_path(g, m - 1);
        let p = choose|p: Seq<int>| g.is_live_path(p) && p.len() == m - 1;
        let last = p[p.len() - 1];
        assert(g.vertex_alive(last));
        let u = choose|u: int| g.vertex_alive(u) && g.has_edge(last, u);
        let q = p.push(u);
        assert forall|k: int| 0 <= k < q.len() implies g.vertex_alive(#[trigger] q[k]) by {
            if k < p.len() {
                assert(q[k] == p[k]);
            } else {
                assert(q[k] == u);
            }
        }
        assert forall|k: int| 0 <= k < q.len() - 1 implies g.has_edge(
            #[trigger] q[k],
            q[k + 1],
        ) by {
            if k < p.len() - 1 {
                assert(q[k] == p[k]);
                assert(q[k + 1] == p[k + 1]);
            } else {
                assert(q[k] == last);
                assert(q[k + 1] == u);
            }
        }
        assert(g.is_live_path(q) && q.len() == m);
    }
}

/// On a well-formed graph without a live dependency cycle, draining makes
/// progress exactly while vertices remain: the next step finds a terminal
/// vertex if and only if something is still alive. Together with the drain
/// history invariants, an acyclic graph therefore yields every vertex
/// exactly once, dependencies first.
#[verifier::rlimit(50)]
pub proof fn lemma_acyclic_drain_progress<'a, N: Node>(g: DependencyGraph<'a, N>)
    requires
        g.wf(),
        !g.has_cycle(),
    ensures
        g.spec_choice() is Some <==> g.spec_live_count() > 0,
{
    let len = g.spec_vertices().len() as int;
    if g.spec_choice() is Some {
        lemma_scan_some_terminal(g, len - 1);
        let v = choose|v: int| g.spec_terminal(v);
        assert(g.vertex_alive(v));
        lemma_alive_live_positive(g, v, len);
    }
    if g.spec_live_count() > 0 && g.spec_choice() is None {
        lemma_scan_none_means_no_terminal(g, len - 1);
        lemma_live_upto_positive(g, len);
        assert forall|v: int| #[trigger] g.vertex_alive(v) implies exists|u: int|
            g.vertex_alive(u) && g.has_edge(v, u) by {
            assert(0 <= v < len);
            assert(!g.spec_terminal(v));
            let k = choose|k: int|
                0 <= k < g.spec_edges().len() && (#[trigger] g.spec_edges()[k]).from == v
                    && g.spec_alive()[g.spec_edges()[k].to as int];
            let u = g.spec_edges()[k].to as int;
            assert(g.edge_ok(k));
            assert(g.vertex_alive(u));
            assert(g.has_edge(v, u));
        }
        let w0 = choose|w: int| 0 <= w < len && g.spec_alive()[w];
        assert(g.vertex_alive(w0));
        let n_live = g.spec_live_count() as int;
        lemma_build_path(g, n_live + 1);
        let p = choose|p: Seq<int>| g.is_live_path(p) && p.len() == n_live + 1;
        lemma_live_set_cardinality(g, len);
        if p.no_duplicates() {
            p.unique_seq_to_set();
            assert forall|x: int| p.to_set().contains(x) implies g.live_set_upto(len).contains(
                x,
            ) by {
                assert(p.contains(x));
                let k = choose|k: int| 0 <= k < p.len() && p[k] == x;
                assert(g.vertex_alive(x));
            }
            lemma_len_subset(p.to_set(), g.live_set_upto(len));
            assert(false);
        } else {
            let (i, j) = choose|i: int, j: int|
                0 <= i < p.len() && 0 <= j < p.len() && i != j && p[i] == p[j];
            let a = if i < j {
                i
            } else {
                j
            };
            let b = if i < j {
                j
            } else {
                i
            };
            let cyc = p.subrange(a, b + 1);
            lemma_subpath(g, p, a, b + 1);
            assert(cyc.len() >= 2);
            assert(cyc[0] == p[a]);
            assert(cyc[cyc.len() - 1] == p[b]);
            assert(g.has_cycle());
            assert(false);
        }
    }
}

/// Once an acyclic graph's drain reports `None`, everything was yielded:
/// no vertex is left alive, and the drain history contains every vertex of
/// the graph — each exactly once, by
/// [`lemma_each_vertex_yielded_once`].
pub proof fn lemma_completed_drain_yields_all<'a, N: Node>(g: DependencyGraph<'a, N>)
    requires
        g.wf(),
        !g.has_cycle(),
        g.spec_choice() is None,
    ensures
        g.spec_live_count() == 0,
        forall|v: int| 0 <= v < g.spec_vertices().len() ==> g.spec_yielded().contains(v),
        g.spec_yielded().len() == g.spec_vertices().len(),
{
    lemma_acyclic_drain_progress(g);
    let len = g.spec_vertices().len() as int;
    lemma_live_upto_zero(g, len);
    assert forall|v: int| 0 <= v < len implies g.spec_yielded().contains(v) by {
        assert(!g.spec_alive()[v]);
    }
    let y = g.spec_yielded();
    y.unique_seq_to_set();
    assert(y.to_set() =~= set_int_range(0, len)) by {
        assert forall|x: int| y.to_set().contains(x) implies set_int_range(0, len).contains(
            x,
        ) by {
            let k = choose|k: int| 0 <= k < y.len() && y[k] == x;
            assert(0 <= y[k] < len);
        }
        assert forall|x: int| set_int_range(0, len).contains(x) implies y.to_set().contains(
            x,
        ) by {
            assert(y.contains(x));
        }
    }
    lemma_int_range(0, len);
}

/// Removing one vertex cannot create a live dependency cycle: a cycle of
/// the smaller graph is already a cycle of the larger one.
pub proof fn lemma_drain_preserves_acyclicity<'a, N: Node>(
    pre: DependencyGraph<'a, N>,
    post: DependencyGraph<'a, N>,
    v: int,
)
    requires
        pre.wf(),
        !pre.has_cycle(),
        0 <= v < pre.spec_alive().len(),
        post.spec_vertices() == pre.spec_vertices(),
        post.spec_edges() == pre.spec_edges(),
        post.spec_alive() == pre.spec_alive().update(v, false),
    ensures
        !post.has_cycle(),
{
    if post.has_cycle() {
        let p = choose|p: Seq<int>|
            post.is_live_path(p) && p.len() >= 2 && p[0] == p[p.len() - 1];
        assert forall|k: int| 0 <= k < p.len() implies pre.vertex_alive(#[trigger] p[k]) by {
            assert(post.vertex_alive(p[k]));
            assert(0 <= p[k] < pre.spec_alive().len());
            if p[k] == v {
                assert(!post.spec_alive()[v]);
            } else {
                assert(post.spec_alive()[p[k]] == pre.spec_alive()[p[k]]);
            }
        }
        assert forall|k: int| 0 <= k < p.len() - 1 implies pre.has_edge(
            #[trigger] p[k],
            p[k + 1],
        ) by {
            assert(post.has_edge(p[k], p[k + 1]));
            let e = choose|e: int|
                0 <= e < post.spec_edges().len() && (#[trigger] post.spec_edges()[e]).from == p[k]
                    && post.spec_edges()[e].to == p[k + 1];
            assert(pre.spec_edges()[e] == post.spec_edges()[e]);
        }
        assert(pre.is_live_path(p));
        assert(pre.has_cycle());
        assert(false);
    }
}

/// While every vertex is still alive — as right after construction — the
/// unresolved list has one entry per vertex beyond the input items, that is,
/// per dependency edge that found no match.
pub proof fn lemma_fresh_graph_unresolved_count<'a, N: Node>(g: DependencyGraph<'a, N>)
    requires
        g.wf(),
        forall|v: int| 0 <= v < g.spec_vertices().len() ==> g.vertex_alive(v),
    ensures
        g.spec_unresolved().len() == g.spec_vertices().len() - g.spec_nodes().len(),
{
    lemma_fresh_unresolved_upto(g, g.spec_vertices().len() as int);
}

/// Induction behind [`lemma_fresh_graph_unresolved_count`]: the Resolved
/// prefix contributes nothing, every later vertex contributes one entry.
proof fn lemma_fresh_unresolved_upto<'a, N: Node>(g: DependencyGraph<'a, N>, v: int)
    requires
        g.wf(),
        forall|w: int| 0 <= w < g.spec_vertices().len() ==> g.vertex_alive(w),
        0 <= v <= g.spec_vertices().len(),
    ensures
        g.spec_unresolved_upto(v).len() == if v <= g.spec_nodes().len() {
            0
        } else {
            v - g.spec_nodes().len()
        },
    decreases v,
{
    if v > 0 {
        lemma_fresh_unresolved_upto(g, v - 1);
        assert(g.vertex_alive(v - 1));
        assert(g.vertex_label_ok(v - 1));
    }
}

/// Every input item has exactly one Resolved vertex: the one at its own
/// position; every vertex beyond the input is Unresolved.
pub proof fn lemma_one_resolved_vertex_per_item<'a, N: Node>(g: DependencyGraph<'a, N>, i: int)
    requires
        g.wf(),
        0 <= i < g.spec_nodes().len(),
    ensures
        g.spec_vertices()[i] == Vertex::Resolved(i as usize),
        forall|v: int|
            g.spec_nodes().len() <= v < g.spec_vertices().len()
                ==> !(#[trigger] g.spec_vertices()[v] is Resolved),
{
    assert(g.vertex_label_ok(i));
    assert forall|v: int|
        g.spec_nodes().len() <= v < g.spec_vertices().len() implies !(
    #[trigger] g.spec_vertices()[v] is Resolved) by {
        assert(g.vertex_label_ok(v));
    }
}

/// `t` occurs at exactly one position of `vs`.
pub open spec fn appears_exactly_once(vs: Seq<Vertex>, t: Vertex) -> bool {
    exists|u: int|
        0 <= u < vs.len() && vs[u] == t && (forall|w: int|
            0 <= w < vs.len() && w != u ==> vs[w] != t)
}

/// `t` occurs nowhere in `vs`.
pub open spec fn appears_never(vs: Seq<Vertex>, t: Vertex) -> bool {
    forall|w: int| 0 <= w < vs.len() ==> vs[w] != t
}

/// Each declared dependency that no node of the input matches gives rise to
/// exactly one Unresolved vertex of its own — unmatched descriptors are not
/// deduplicated — while a matched dependency gives rise to none.
pub proof fn lemma_one_unresolved_vertex_per_unmatched<N: Node>(nodes: Seq<N>, i: int, d: int)
    requires
        nodes.len() <= usize::MAX,
        forall|m: int|
            0 <= m < nodes.len() ==> (#[trigger] nodes[m].spec_dependencies()).len()
                <= usize::MAX,
        0 <= i < nodes.len(),
        0 <= d < nodes[i].spec_dependencies().len(),
    ensures
        first_match(nodes, nodes[i].spec_dependencies()[d]) is None ==> appears_exactly_once(
            graph_vertices(nodes),
            Vertex::Unresolved(i as usize, d as usize),
        ),
        first_match(nodes, nodes[i].spec_dependencies()[d]) is Some ==> appears_never(
            graph_vertices(nodes),
            Vertex::Unresolved(i as usize, d as usize),
        ),
{
    lemma_built_occurrences(nodes, nodes.len() as int, 0, i, d);
}

/// Induction behind [`lemma_one_unresolved_vertex_per_unmatched`], following
/// the recursion of `built_vertices`: the vertex for dependency `d` of node
/// `i` appears exactly once as soon as that dependency has been processed
/// and has no match, and never otherwise.
proof fn lemma_built_occurrences<N: Node>(nodes: Seq<N>, i2: int, d2: int, i: int, d: int)
    requires
        nodes.len() <= usize::MAX,
        forall|m: int|
            0 <= m < nodes.len() ==> (#[trigger] nodes[m].spec_dependencies()).len()
                <= usize::MAX,
        0 <= i2 <= nodes.len(),
        0 <= d2,
        i2 < nodes.len() ==> d2 <= nodes[i2].spec_dependencies().len(),
        i2 == nodes.len() ==> d2 == 0,
        0 <= i < nodes.len(),
        0 <= d < nodes[i].spec_dependencies().len(),
    ensures
        (i < i2 || (i == i2 && d < d2)) && first_match(nodes, nodes[i].spec_dependencies()[d])
            is None ==> appears_exactly_once(
            crate::graph::built_vertices(nodes, i2, d2),
            Vertex::Unresolved(i as usize, d as usize),
        ),
        !((i < i2 || (i == i2 && d < d2)) && first_match(nodes, nodes[i].spec_dependencies()[d])
            is None) ==> appears_never(
            crate::graph::built_vertices(nodes, i2, d2),
            Vertex::Unresolved(i as usize, d as usize),
        ),
    decreases i2, d2,
{
    let t = Vertex::Unresolved(i as usize, d as usize);
    if d2 == 0 {
        if i2 == 0 {
            let vs = crate::graph::built_vertices(nodes, 0, 0);
            assert(vs == Seq::new(nodes.len(), |k: int| Vertex::Resolved(k as usize)));
            assert forall|w: int| 0 <= w < vs.len() implies vs[w] != t by {
                assert(vs[w] == Vertex::Resolved(w as usize));
            }
        } else {
            lemma_built_occurrences(
                nodes,
                i2 - 1,
                nodes[i2 - 1].spec_dependencies().len() as int,
                i,
                d,
            );
            assert(crate::graph::built_vertices(nodes, i2, 0) == crate::graph::built_vertices(
                nodes,
                i2 - 1,
                nodes[i2 - 1].spec_dependencies().len() as int,
            ));
        }
    } else {
        lemma_built_occurrences(nodes, i2, d2 - 1, i, d);
        let prev = crate::graph::built_vertices(nodes, i2, d2 - 1);
        let vs = crate::graph::built_vertices(nodes, i2, d2);
        let processed_before = i < i2 || (i == i2 && d < d2 - 1);
        let unmatched = first_match(nodes, nodes[i].spec_dependencies()[d]) is None;
        if first_match(nodes, nodes[i2].spec_dependencies()[d2 - 1]) is Some {
            assert(vs == prev);
        } else {
            let pushed = Vertex::Unresolved(i2 as usize, (d2 - 1) as usize);
            assert(vs == prev.push(pushed));
            if i2 == i && d2 - 1 == d {
                assert(vs[vs.len() - 1] == t);
                assert(appears_never(prev, t));
                assert forall|w: int| 0 <= w < vs.len() && w != vs.len() - 1 implies vs[w]
                    != t by {
                    assert(vs[w] == prev[w]);
                }
                assert(appears_exactly_once(vs, t));
            } else {
                assert(pushed != t);
                if processed_before && unmatched {
                    let u = choose|u: int|
                        0 <= u < prev.len() && prev[u] == t && (forall|w: int|
                            0 <= w < prev.len() && w != u ==> prev[w] != t);
                    assert(vs[u] == t);
                    assert forall|w: int| 0 <= w < vs.len() && w != u implies vs[w] != t by {
                        if w < prev.len() {
                            assert(vs[w] == prev[w]);
                        } else {
                            assert(vs[w] == pushed);
                        }
                    }
                    assert(appears_exactly_once(vs, t));
                } else {
                    assert(appears_never(prev, t));
                    assert forall|w: int| 0 <= w < vs.len() implies vs[w] != t by {
                        if w < prev.len() {
                            assert(vs[w] == prev[w]);
                        } else {
                            assert(vs[w] == pushed);
                        }
                    }
                }
            }
        }
    }
}

} // verus!
