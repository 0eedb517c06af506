use vstd::prelude::*;
use vstd::pervasive::VecAdditionalExecFns;

verus! {

/// A unit of work with declared dependencies. Implementors enumerate the
/// descriptors they require and decide whether they can satisfy a given
/// descriptor. `matches` must be a pure predicate: the `ensures` clauses tie
/// both executable methods to spec-level definitions, so one resolution pass
/// sees a stable view of every node.
pub trait Node: Sized {
    /// Encodes a dependency relationship, for instance a
    /// (package name, version requirement) pair.
    type DependencyType;

    /// What `dependencies` returns, as a mathematical sequence.
    spec fn spec_dependencies(&self) -> Seq<Self::DependencyType>;

    /// Whether this node can satisfy `dependency`, as a pure predicate.
    spec fn spec_matches(&self, dependency: &Self::DependencyType) -> bool;

    /// The ordered descriptors this node requires before it is ready.
    fn dependencies(&self) -> (r: &[Self::DependencyType])
        ensures
            r@ == self.spec_dependencies(),
    ;

    /// True if `dependency` can be met by this node.
    fn matches(&self, dependency: &Self::DependencyType) -> (r: bool)
        ensures
            r == self.spec_matches(dependency),
    ;
}

/// Wrapper around dependency graph nodes. A graph may contain dependencies
/// that no node of the input collection fulfills; this wrapper separates the
/// internally resolved nodes from the unresolved descriptors. An unresolved
/// dependency is not necessarily unsatisfiable: it only has no match within
/// the graph, and an external resolver may still provide it.
pub enum Step<'a, N: Node> {
    Resolved(&'a N),
    Unresolved(&'a N::DependencyType),
}

impl<'a, N: Node> Step<'a, N> {
    pub fn is_resolved(&self) -> (r: bool)
        ensures
            r == (self is Resolved),
    {
        match self {
            Step::Resolved(_) => true,
            Step::Unresolved(_) => false,
        }
    }

    pub fn as_resolved(&self) -> (r: Option<&N>)
        ensures
            r is Some <==> self is Resolved,
            self matches Step::Resolved(node) ==> r == Some(*node),
    {
        match self {
            Step::Resolved(node) => Some(node),
            Step::Unresolved(_) => None,
        }
    }

    pub fn as_unresolved(&self) -> (r: Option<&N::DependencyType>)
        ensures
            r is Some <==> self is Unresolved,
            self matches Step::Unresolved(dependency) ==> r == Some(*dependency),
    {
        match self {
            Step::Resolved(_) => None,
            Step::Unresolved(dependency) => Some(dependency),
        }
    }
}

/// The label of one graph vertex: either an input node, named by its position
/// in the input slice, or one unmatched descriptor, named by the owning
/// node's position and the descriptor's index in that node's dependency list.
#[derive(Clone, Copy)]
pub enum Vertex {
    Resolved(usize),
    Unresolved(usize, usize),
}

/// A directed edge from a dependent vertex to the vertex satisfying one of
/// its declared dependencies. `dep` is the index of the originating
/// descriptor in the dependent node's dependency list.
#[derive(Clone, Copy)]
pub struct Edge {
    pub from: usize,
    pub to: usize,
    pub dep: usize,
}

/// The position of the first node of `nodes`, at index `j` or later, that
/// matches `dep`; `None` if no node from `j` on matches.
pub open spec fn first_match_from<N: Node>(nodes: Seq<N>, dep: N::DependencyType, j: int) -> Option<
    int,
>
    decreases nodes.len() - j,
{
    if j < 0 || j >= nodes.len() {
        None
    } else if nodes[j].spec_matches(&dep) {
        Some(j)
    } else {
        first_match_from(nodes, dep, j + 1)
    }
}

/// The position of the first node of `nodes`, in input order, that matches
/// `dep` — the deterministic tie-break of graph construction.
pub open spec fn first_match<N: Node>(nodes: Seq<N>, dep: N::DependencyType) -> Option<int> {
    first_match_from(nodes, dep, 0)
}

/// The vertex list after creating one Resolved vertex per input node and then
/// processing every dependency of `nodes[..i]` plus the first `d`
/// dependencies of `nodes[i]`: each dependency without a match appends one
/// Unresolved vertex.
pub open spec fn built_vertices<N: Node>(nodes: Seq<N>, i: int, d: int) -> Seq<Vertex>
    decreases i, d,
{
    if i < 0 || d < 0 {
        Seq::empty()
    } else if d == 0 {
        if i == 0 {
            Seq::new(nodes.len(), |k: int| Vertex::Resolved(k as usize))
        } else {
            built_vertices(nodes, i - 1, nodes[i - 1].spec_dependencies().len() as int)
        }
    } else {
        let prev = built_vertices(nodes, i, d - 1);
        if first_match(nodes, nodes[i].spec_dependencies()[d - 1]) is Some {
            prev
        } else {
            prev.push(Vertex::Unresolved(i as usize, (d - 1) as usize))
        }
    }
}

/// The edge list after processing every dependency of `nodes[..i]` plus the
/// first `d` dependencies of `nodes[i]`: one edge per processed dependency,
/// pointing at the first match, or at the Unresolved vertex created for it.
pub open spec fn built_edges<N: Node>(nodes: Seq<N>, i: int, d: int) -> Seq<Edge>
    decreases i, d,
{
    if i < 0 || d < 0 {
        Seq::empty()
    } else if d == 0 {
        if i == 0 {
            Seq::empty()
        } else {
            built_edges(nodes, i - 1, nodes[i - 1].spec_dependencies().len() as int)
        }
    } else {
        let prev = built_edges(nodes, i, d - 1);
        let target = match first_match(nodes, nodes[i].spec_dependencies()[d - 1]) {
            Some(m) => m,
            None => built_vertices(nodes, i, d - 1).len() as int,
        };
        prev.push(Edge { from: i as usize, to: target as usize, dep: (d - 1) as usize })
    }
}

/// The complete vertex list of the resolution graph built from `nodes`.
pub open spec fn graph_vertices<N: Node>(nodes: Seq<N>) -> Seq<Vertex> {
    built_vertices(nodes, nodes.len() as int, 0)
}

/// The complete edge list of the resolution graph built from `nodes`.
pub open spec fn graph_edges<N: Node>(nodes: Seq<N>) -> Seq<Edge> {
    built_edges(nodes, nodes.len() as int, 0)
}

/// A directed graph of one Resolved vertex per input node plus one Unresolved
/// vertex per dependency that no input node matches, with one edge per
/// declared dependency. Built once from a borrowed slice, then drained:
/// `next` repeatedly removes a vertex with no remaining outgoing edges, so
/// dependencies are always yielded before their dependents.
pub struct DependencyGraph<'a, N: Node> {
    nodes: &'a [N],
    vertices: Vec<Vertex>,
    alive: Vec<bool>,
    edges: Vec<Edge>,
    yielded: Ghost<Seq<int>>,
}

impl<'a, N: Node> DependencyGraph<'a, N> {
    /// The input collection the graph was built from.
    pub closed spec fn spec_nodes(self) -> Seq<N> {
        self.nodes@
    }

    /// All vertices ever created, in creation order; draining never removes
    /// entries from this list, it only clears their `spec_alive` flag.
    pub closed spec fn spec_vertices(self) -> Seq<Vertex> {
        self.vertices@
    }

    /// Which vertices are still present (not yet drained).
    pub closed spec fn spec_alive(self) -> Seq<bool> {
        self.alive@
    }

    /// All edges ever created, in creation order. An edge is in force only
    /// while both endpoints are alive.
    pub closed spec fn spec_edges(self) -> Seq<Edge> {
        self.edges@
    }

    /// The vertices drained so far, in the order they were yielded.
    pub closed spec fn spec_yielded(self) -> Seq<int> {
        self.yielded@
    }

    /// Vertex `v` is alive.
    pub open spec fn vertex_alive(self, v: int) -> bool {
        &&& 0 <= v < self.spec_vertices().len()
        &&& self.spec_alive()[v]
    }

    /// The label of vertex `v` names valid positions: a Resolved label for
    /// each input node in order, then only Unresolved labels pointing at an
    /// existing dependency of an existing node.
    pub open spec fn vertex_label_ok(self, v: int) -> bool {
        if 0 <= v < self.spec_nodes().len() {
            self.spec_vertices()[v] == Vertex::Resolved(v as usize)
        } else {
            match self.spec_vertices()[v] {
                Vertex::Resolved(_) => false,
                Vertex::Unresolved(o, d) => {
                    &&& (o as int) < self.spec_nodes().len()
                    &&& (d as int) < self.spec_nodes()[o as int].spec_dependencies().len()
                },
            }
        }
    }

    /// Edge `k` connects existing vertices: its source is a node vertex and
    /// its originating descriptor index exists in the source's list.
    pub open spec fn edge_ok(self, k: int) -> bool {
        let e = self.spec_edges()[k];
        &&& (e.from as int) < self.spec_nodes().len()
        &&& (e.to as int) < self.spec_vertices().len()
        &&& (e.dep as int) < self.spec_nodes()[e.from as int].spec_dependencies().len()
    }

    /// Well-formedness: the invariant that construction establishes and
    /// draining preserves. Besides structural validity it records that the
    /// dead vertices are exactly the yielded ones, each yielded once, and
    /// that every vertex was yielded only after everything it points at.
    pub open spec fn wf(self) -> bool {
        &&& self.spec_alive().len() == self.spec_vertices().len()
        &&& self.spec_nodes().len() <= self.spec_vertices().len()
        &&& forall|v: int|
            0 <= v < self.spec_vertices().len() ==> self.vertex_label_ok(v)
        &&& forall|k: int| 0 <= k < self.spec_edges().len() ==> self.edge_ok(k)
        &&& forall|v: int|
            0 <= v < self.spec_vertices().len()
                ==> (!(#[trigger] self.spec_alive()[v]) <==> self.spec_yielded().contains(v))
        &&& self.spec_yielded().no_duplicates()
        &&& forall|k: int|
            0 <= k < self.spec_yielded().len() ==> 0 <= #[trigger] self.spec_yielded()[k]
                < self.spec_vertices().len()
        &&& forall|k: int, e: int|
            0 <= k < self.spec_yielded().len() && 0 <= e < self.spec_edges().len() && (
            #[trigger] self.spec_edges()[e]).from == #[trigger] self.spec_yielded()[k]
                ==> exists|j: int|
                0 <= j < k && self.spec_yielded()[j] == self.spec_edges()[e].to
    }

    /// The only way to build a [`DependencyGraph`] is from a slice of objects
    /// implementing [`Node`]. The graph borrows the original items, so they
    /// cannot be modified while the graph holds them. Construction scans, for
    /// each declared dependency, the same collection in input order for the
    /// first node matching it; a dependency without a match gets a fresh
    /// Unresolved vertex of its own.
    pub fn from(nodes: &'a [N]) -> (r: DependencyGraph<'a, N>)
        ensures
            r.wf(),
            r.spec_nodes() == nodes@,
            r.spec_vertices() == graph_vertices(nodes@),
            r.spec_edges() == graph_edges(nodes@),
            forall|v: int| 0 <= v < r.spec_vertices().len() ==> r.vertex_alive(v),
            r.spec_yielded() == Seq::<int>::empty(),
    {
        let n: usize = nodes.len();
        let mut vertices: Vec<Vertex> = Vec::new();
        let mut alive: Vec<bool> = Vec::new();
        let mut edges: Vec<Edge> = Vec::new();

        let mut i: usize = 0;
        while i < n
            invariant
                i <= n,
                n == nodes@.len(),
                vertices@.len() == i,
                alive@.len() == i,
                forall|k: int| 0 <= k < i ==> vertices@[k] == Vertex::Resolved(k as usize),
                forall|k: int| 0 <= k < i ==> alive@[k],
            decreases n - i,
        {
            vertices.push(Vertex::Resolved(i));
            alive.push(true);
            i += 1;
        }
        proof {
            assert(vertices@ =~= built_vertices(nodes@, 0, 0));
            assert(edges@ =~= built_edges(nodes@, 0, 0));
        }

        let mut i: usize = 0;
        while i < n
            invariant
                i <= n,
                n == nodes@.len(),
                vertices@ == built_vertices(nodes@, i as int, 0),
                edges@ == built_edges(nodes@, i as int, 0),
                alive@.len() == vertices@.len(),
                n <= vertices@.len(),
                forall|k: int| 0 <= k < alive@.len() ==> alive@[k],
                forall|v: int| 0 <= v < n ==> vertices@[v] == Vertex::Resolved(v as usize),
                forall|v: int|
                    n <= v < vertices@.len()
                        ==> match #[trigger] vertices@[v] {
                            Vertex::Resolved(_) => false,
                            Vertex::Unresolved(o, d) => {
                                &&& (o as int) < n
                                &&& (d as int) < nodes@[o as int].spec_dependencies().len()
                            },
                        },
                forall|k: int|
                    0 <= k < edges@.len()
                        ==> {
                            let e = #[trigger] edges@[k];
                            &&& (e.from as int) < n
                            &&& (e.to as int) < vertices@.len()
                            &&& (e.dep as int) < nodes@[e.from as int].spec_dependencies().len()
                        },
            decreases n - i,
        {
            let deps = nodes[i].dependencies();
            let mut d: usize = 0;
            while d < deps.len()
                invariant
                    i < n,
                    d <= deps@.len(),
                    n == nodes@.len(),
                    deps@ == nodes@[i as int].spec_dependencies(),
                    vertices@ == built_vertices(nodes@, i as int, d as int),
                    edges@ == built_edges(nodes@, i as int, d as int),
                    alive@.len() == vertices@.len(),
                    n <= vertices@.len(),
                    forall|k: int| 0 <= k < alive@.len() ==> alive@[k],
                    forall|v: int| 0 <= v < n ==> vertices@[v] == Vertex::Resolved(v as usize),
                    forall|v: int|
                        n <= v < vertices@.len()
                            ==> match #[trigger] vertices@[v] {
                                Vertex::Resolved(_) => false,
                                Vertex::Unresolved(o, dd) => {
                                    &&& (o as int) < n
                                    &&& (dd as int) < nodes@[o as int].spec_dependencies().len()
                                },
                            },
                    forall|k: int|
                        0 <= k < edges@.len()
                            ==> {
                                let e = #[trigger] edges@[k];
                                &&& (e.from as int) < n
                                &&& (e.to as int) < vertices@.len()
                                &&& (e.dep as int) < nodes@[e.from as int].spec_dependencies().len()
                            },
                decreases deps@.len() - d,
            {
                let dep = &deps[d];
                let mut j: usize = 0;
                while j < n && !nodes[j].matches(dep)
                    invariant
                        j <= n,
                        n == nodes@.len(),
                        i < n,
                        d < deps@.len(),
                        deps@ == nodes@[i as int].spec_dependencies(),
                        *dep == deps@[d as int],
                        forall|k: int| 0 <= k < j ==> !nodes@[k].spec_matches(&deps@[d as int]),
                    decreases n - j,
                {
                    j += 1;
                }
                proof {
                    lemma_first_match_prefix(
                        nodes@,
                        deps@[d as int],
                        0,
                        if j < n {
                            j as int
                        } else {
                            n as int
                        },
                    );
                }
                if j < n {
                    edges.push(Edge { from: i, to: j, dep: d });
                } else {
                    let u = vertices.len();
                    vertices.push(Vertex::Unresolved(i, d));
                    alive.push(true);
                    edges.push(Edge { from: i, to: u, dep: d });
                }
                proof {
                    assert(vertices@ =~= built_vertices(nodes@, i as int, d as int + 1));
                    assert(edges@ =~= built_edges(nodes@, i as int, d as int + 1));
                }
                d += 1;
            }
            proof {
                assert(built_vertices(nodes@, i as int + 1, 0) == built_vertices(
                    nodes@,
                    i as int,
                    deps@.len() as int,
                ));
                assert(built_edges(nodes@, i as int + 1, 0) == built_edges(
                    nodes@,
                    i as int,
                    deps@.len() as int,
                ));
            }
            i += 1;
        }

        let r = DependencyGraph { nodes, vertices, alive, edges, yielded: Ghost(Seq::empty()) };
        proof {
            assert(forall|v: int|
                0 <= v < r.spec_vertices().len() ==> !r.spec_yielded().contains(v));
        }
        r
    }
}

impl<'a, N: Node> DependencyGraph<'a, N> {
    /// Vertex `v` is terminal: alive, with no edge left to an alive vertex.
    /// Terminal vertices are the ones eligible for draining; an Unresolved
    /// vertex has no outgoing edges, so it is terminal whenever alive.
    pub open spec fn spec_terminal(self, v: int) -> bool {
        &&& self.vertex_alive(v)
        &&& forall|k: int|
            0 <= k < self.spec_edges().len() && (#[trigger] self.spec_edges()[k]).from == v
                ==> !self.spec_alive()[self.spec_edges()[k].to as int]
    }

    /// The highest terminal vertex index that is at most `v`, if any.
    pub open spec fn scan_from(self, v: int) -> Option<int>
        decreases v + 1,
    {
        if v < 0 {
            None
        } else if self.spec_terminal(v) {
            Some(v)
        } else {
            self.scan_from(v - 1)
        }
    }

    /// The vertex the next draining step removes: the terminal vertex that
    /// was created last. `None` when no vertex is terminal, either because
    /// the graph is fully drained or because only a dependency cycle is left.
    pub open spec fn spec_choice(self) -> Option<int> {
        self.scan_from(self.spec_vertices().len() - 1)
    }

    /// The step a drained vertex is reported as: its node for a Resolved
    /// vertex, the unmatched descriptor for an Unresolved vertex.
    pub open spec fn step_for(self, v: int, st: Step<'a, N>) -> bool {
        match self.spec_vertices()[v] {
            Vertex::Resolved(i) => st matches Step::Resolved(node) && *node == self.spec_nodes()[i as int],
            Vertex::Unresolved(o, d) => st matches Step::Unresolved(dep) && *dep
                == self.spec_nodes()[o as int].spec_dependencies()[d as int],
        }
    }

    /// One draining step: remove and return the terminal vertex that was
    /// created last, or return `None` — leaving the graph unchanged — when no
    /// vertex is terminal. A `None` with vertices remaining means the rest of
    /// the graph is a dependency cycle.
    pub fn next(&mut self) -> (r: Option<Step<'a, N>>)
        requires
            old(self).wf(),
        ensures
            final(self).wf(),
            final(self).spec_nodes() == old(self).spec_nodes(),
            final(self).spec_vertices() == old(self).spec_vertices(),
            final(self).spec_edges() == old(self).spec_edges(),
            old(self).spec_choice() is None ==> (r is None && final(self).spec_alive() == old(
                self,
            ).spec_alive() && final(self).spec_yielded() == old(self).spec_yielded()),
            old(self).spec_choice() matches Some(v) ==> ({
                &&& final(self).spec_alive() == old(self).spec_alive().update(v, false)
                &&& final(self).spec_yielded() == old(self).spec_yielded().push(v)
                &&& r matches Some(st) && old(self).step_for(v, st)
            }),
    {
        let n_verts = self.vertices.len();
        let mut v: usize = n_verts;
        while v > 0
            invariant
                *self == *old(self),
                self.wf(),
                v <= n_verts,
                n_verts == self.spec_vertices().len(),
                forall|w: int| v <= w < n_verts ==> !self.spec_terminal(w),
            decreases v,
        {
            v -= 1;
            if self.alive[v] {
                let m = self.edges.len();
                let mut k: usize = 0;
                let mut blocked = false;
                while k < m && !blocked
                    invariant
                        *self == *old(self),
                        self.wf(),
                        v < n_verts,
                        n_verts == self.spec_vertices().len(),
                        m == self.spec_edges().len(),
                        k <= m,
                        !blocked ==> forall|e: int|
                            0 <= e < k ==> !((#[trigger] self.spec_edges()[e]).from == v
                                && self.spec_alive()[self.spec_edges()[e].to as int]),
                        blocked ==> exists|e: int|
                            0 <= e < m && (#[trigger] self.spec_edges()[e]).from == v
                                && self.spec_alive()[self.spec_edges()[e].to as int],
                    decreases m - k,
                {
                    proof {
                        assert(self.edge_ok(k as int));
                    }
                    if self.edges[k].from == v && self.alive[self.edges[k].to] {
                        blocked = true;
                    }
                    k += 1;
                }
                if !blocked {
                    proof {
                        assert(self.spec_terminal(v as int));
                        self.lemma_scan_finds(n_verts as int - 1, v as int);
                    }
                    let ghost pre = *self;
                    let chosen = self.vertices[v];
                    self.alive.set(v, false);
                    self.yielded = Ghost(self.yielded@.push(v as int));
                    proof {
                        pre.lemma_drain_step_wf(*self, v as int);
                        assert(pre.vertex_label_ok(v as int));
                    }
                    let nodes: &'a [N] = self.nodes;
                    let step = match chosen {
                        Vertex::Resolved(i) => {
                            proof {
                                assert(pre.spec_vertices()[v as int] == Vertex::Resolved(i));
                            }
                            Some(Step::Resolved(&nodes[i]))
                        },
                        Vertex::Unresolved(o, d) => {
                            proof {
                                assert(pre.spec_vertices()[v as int] == Vertex::Unresolved(o, d));
                            }
                            Some(Step::Unresolved(&nodes[o].dependencies()[d]))
                        },
                    };
                    return step;
                }
            }
        }
        proof {
            self.lemma_scan_misses(n_verts as int - 1);
        }
        None
    }

    /// No alive vertex is Unresolved: every dependency of every remaining
    /// node is satisfied by another node of the collection.
    pub open spec fn spec_internally_resolvable(self) -> bool {
        forall|v: int|
            0 <= v < self.spec_vertices().len() && (#[trigger] self.spec_alive()[v])
                ==> self.spec_vertices()[v] is Resolved
    }

    /// The descriptors of the alive Unresolved vertices among the first `v`
    /// vertices, in vertex order.
    pub open spec fn spec_unresolved_upto(self, v: int) -> Seq<N::DependencyType>
        decreases v,
    {
        if v <= 0 {
            Seq::empty()
        } else {
            let prev = self.spec_unresolved_upto(v - 1);
            if self.spec_alive()[v - 1] {
                match self.spec_vertices()[v - 1] {
                    Vertex::Resolved(_) => prev,
                    Vertex::Unresolved(o, d) => prev.push(
                        self.spec_nodes()[o as int].spec_dependencies()[d as int],
                    ),
                }
            } else {
                prev
            }
        }
    }

    /// The descriptors of all alive Unresolved vertices, in vertex order.
    pub open spec fn spec_unresolved(self) -> Seq<N::DependencyType> {
        self.spec_unresolved_upto(self.spec_vertices().len() as int)
    }

    /// The number of alive vertices among the first `v`.
    pub open spec fn live_upto(self, v: int) -> nat
        decreases v,
    {
        if v <= 0 {
            0
        } else {
            self.live_upto(v - 1) + if self.spec_alive()[v - 1] {
                1nat
            } else {
                0nat
            }
        }
    }

    /// The number of vertices draining has not yet removed.
    pub open spec fn spec_live_count(self) -> nat {
        self.live_upto(self.spec_vertices().len() as int)
    }

    /// True if all graph [`Node`]s refer only to other nodes of the graph:
    /// no unresolved dependency remains. Reflects the live state, which
    /// draining shrinks.
    pub fn is_internally_resolvable(&self) -> (r: bool)
        requires
            self.wf(),
        ensures
            r == self.spec_internally_resolvable(),
    {
        let n_verts = self.vertices.len();
        let mut v: usize = 0;
        while v < n_verts
            invariant
                v <= n_verts,
                n_verts == self.spec_vertices().len(),
                self.wf(),
                forall|w: int|
                    0 <= w < v && (#[trigger] self.spec_alive()[w]) ==> self.spec_vertices()[w]
                        is Resolved,
            decreases n_verts - v,
        {
            if self.alive[v] {
                match self.vertices[v] {
                    Vertex::Unresolved(_, _) => {
                        return false;
                    },
                    Vertex::Resolved(_) => {},
                }
            }
            v += 1;
        }
        true
    }

    /// The currently unresolved dependencies, in vertex order, without
    /// draining or changing the graph. Useful for pre-validating or
    /// pre-fetching external dependencies before consuming the graph.
    pub fn unresolved_dependencies(&self) -> (r: Vec<&'a N::DependencyType>)
        requires
            self.wf(),
        ensures
            r@.len() == self.spec_unresolved().len(),
            forall|k: int| 0 <= k < r@.len() ==> *(#[trigger] r@[k]) == self.spec_unresolved()[k],
    {
        let nodes: &'a [N] = self.nodes;
        let n_verts = self.vertices.len();
        let mut r: Vec<&'a N::DependencyType> = Vec::new();
        let mut v: usize = 0;
        while v < n_verts
            invariant
                v <= n_verts,
                n_verts == self.spec_vertices().len(),
                self.wf(),
                nodes@ == self.spec_nodes(),
                r@.len() == self.spec_unresolved_upto(v as int).len(),
                forall|k: int|
                    0 <= k < r@.len() ==> *(#[trigger] r@[k]) == self.spec_unresolved_upto(
                        v as int,
                    )[k],
            decreases n_verts - v,
        {
            proof {
                assert(self.vertex_label_ok(v as int));
                self.lemma_unresolved_upto_extends(v as int, v as int + 1);
            }
            if self.alive[v] {
                match self.vertices[v] {
                    Vertex::Unresolved(o, d) => {
                        r.push(&nodes[o].dependencies()[d]);
                    },
                    Vertex::Resolved(_) => {},
                }
            }
            v += 1;
        }
        r
    }

    /// A longer prefix of vertices only appends to the unresolved list.
    proof fn lemma_unresolved_upto_extends(self, v: int, w: int)
        requires
            0 <= v <= w,
        ensures
            self.spec_unresolved_upto(v).len() <= self.spec_unresolved_upto(w).len(),
            forall|k: int|
                0 <= k < self.spec_unresolved_upto(v).len() ==> #[trigger] self.spec_unresolved_upto(
                    w,
                )[k] == self.spec_unresolved_upto(v)[k],
        decreases w - v,
    {
        if v < w {
            self.lemma_unresolved_upto_extends(v, w - 1);
        }
    }

    /// How many vertices draining has not yet removed. After a completed
    /// drain this is zero exactly when no dependency cycle was left behind.
    pub fn remaining_vertices(&self) -> (r: usize)
        requires
            self.wf(),
        ensures
            r == self.spec_live_count(),
    {
        let n_verts = self.vertices.len();
        let mut count: usize = 0;
        let mut v: usize = 0;
        while v < n_verts
            invariant
                v <= n_verts,
                n_verts == self.spec_vertices().len(),
                self.wf(),
                count <= v,
                count == self.live_upto(v as int),
            decreases n_verts - v,
        {
            if self.alive[v] {
                count += 1;
            }
            v += 1;
        }
        count
    }

    /// `scan_from` finds `v` when `v` is terminal and nothing above it is.
    proof fn lemma_scan_finds(self, hi: int, v: int)
        requires
            0 <= v <= hi,
            self.spec_terminal(v),
            forall|w: int| v < w <= hi ==> !self.spec_terminal(w),
        ensures
            self.scan_from(hi) == Some(v),
        decreases hi - v,
    {
        if hi > v {
            self.lemma_scan_finds(hi - 1, v);
        }
    }

    /// `scan_from` finds nothing when no vertex up to `hi` is terminal.
    proof fn lemma_scan_misses(self, hi: int)
        requires
            forall|w: int| 0 <= w <= hi ==> !self.spec_terminal(w),
        ensures
            self.scan_from(hi) is None,
        decreases hi + 1,
    {
        if hi >= 0 {
            self.lemma_scan_misses(hi - 1);
        }
    }

    /// Removing a terminal vertex preserves well-formedness: the vertex
    /// enters the yielded history, and — being terminal — everything it
    /// points at was already yielded, so the ordering invariant holds.
    proof fn lemma_drain_step_wf(self, post: Self, v: int)
        requires
            self.wf(),
            self.spec_terminal(v),
            post.spec_nodes() == self.spec_nodes(),
            post.spec_vertices() == self.spec_vertices(),
            post.spec_edges() == self.spec_edges(),
            post.spec_alive() == self.spec_alive().update(v, false),
            post.spec_yielded() == self.spec_yielded().push(v),
        ensures
            post.wf(),
    {
        let y = self.spec_yielded();
        let yp = post.spec_yielded();
        let len = self.spec_vertices().len() as int;
        assert(!y.contains(v));
        assert forall|w: int| 0 <= w < len implies post.vertex_label_ok(w) by {
            assert(self.vertex_label_ok(w));
        }
        assert forall|k: int| 0 <= k < post.spec_edges().len() implies post.edge_ok(k) by {
            assert(self.edge_ok(k));
        }
        assert forall|k: int| 0 <= k < yp.len() implies 0 <= #[trigger] yp[k] < len by {
            if k < y.len() {
                assert(yp[k] == y[k]);
            } else {
                assert(yp[k] == v);
            }
        }
        assert forall|w: int| 0 <= w < len implies (!(#[trigger] post.spec_alive()[w])
            <==> yp.contains(w)) by {
            if w == v {
                assert(yp[y.len() as int] == v);
                assert(yp.contains(v));
            } else {
                if y.contains(w) {
                    let j = choose|j: int| 0 <= j < y.len() && y[j] == w;
                    assert(yp[j] == w);
                    assert(yp.contains(w));
                }
                if yp.contains(w) {
                    let j = choose|j: int| 0 <= j < yp.len() && yp[j] == w;
                    assert(j < y.len());
                    assert(y[j] == w);
                    assert(y.contains(w));
                }
            }
        }
        assert(yp.no_duplicates()) by {
            assert forall|i: int, j: int|
                0 <= i < yp.len() && 0 <= j < yp.len() && i != j implies yp[i] != yp[j] by {
                if i < y.len() && j < y.len() {
                    assert(y[i] == yp[i] && y[j] == yp[j]);
                } else if i < y.len() {
                    assert(yp[j] == v);
                    if yp[i] == v {
                        assert(y.contains(v));
                    }
                } else if j < y.len() {
                    assert(yp[i] == v);
                    if yp[j] == v {
                        assert(y.contains(v));
                    }
                }
            }
        }
        assert forall|k: int, e: int|
            0 <= k < yp.len() && 0 <= e < post.spec_edges().len() && (
            #[trigger] post.spec_edges()[e]).from == #[trigger] yp[k] implies exists|j: int|
            0 <= j < k && yp[j] == post.spec_edges()[e].to by {
            let ee = post.spec_edges()[e];
            if k < y.len() {
                assert(y[k] == yp[k]);
                let j = choose|j: int| 0 <= j < k && y[j] == ee.to;
                assert(yp[j] == ee.to);
            } else {
                assert(yp[k] == v);
                assert(self.edge_ok(e));
                assert(!self.spec_alive()[ee.to as int]);
                assert(y.contains(ee.to as int));
                let j = choose|j: int| 0 <= j < y.len() && y[j] == ee.to;
                assert(yp[j] == ee.to);
            }
        }
    }
}

/// If no node of `nodes[j..k]` matches `dep`, the first match from `j` is the
/// first match from `k`; in particular, if `nodes[k]` matches (or `k` is the
/// end), the first match from `j` is exactly `k` (or nothing).
proof fn lemma_first_match_prefix<N: Node>(nodes: Seq<N>, dep: N::DependencyType, j: int, k: int)
    requires
        0 <= j <= k <= nodes.len(),
        forall|m: int| j <= m < k ==> !nodes[m].spec_matches(&dep),
    ensures
        first_match_from(nodes, dep, j) == if k < nodes.len() && nodes[k].spec_matches(&dep) {
            Some(k)
        } else {
            first_match_from(nodes, dep, k)
        },
    decreases k - j,
{
    if j < k {
        lemma_first_match_prefix(nodes, dep, j + 1, k);
    }
}

} // verus!
