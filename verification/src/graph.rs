//! The dependency-graph engine: cycle, ordering, readiness and neighbor
//! queries over a snapshot of issues.
//!
//! The graph itself is a `petgraph` directed graph, held behind trusted
//! wrappers whose contracts speak of two names: the node-weight sequence and
//! the edge sequence (as pairs of node indices). Every algorithmic answer is
//! then related to those names.

use vstd::prelude::*;

use crate::issue::blocked_within;
use crate::issue::status_is_open;
use crate::issue::Issue;
use crate::issue::IssueView;

verus! {

#[verifier::external_type_specification]
#[verifier::external_body]
#[verifier::reject_recursive_types(N)]
#[verifier::reject_recursive_types(E)]
#[verifier::reject_recursive_types(Ty)]
#[verifier::reject_recursive_types(Ix)]
pub struct ExGraph<N, E, Ty, Ix>(petgraph::graph::Graph<N, E, Ty, Ix>);

#[verifier::external_type_specification]
#[verifier::external_body]
pub struct ExDirected(petgraph::Directed);

/// The node weights of the graph, in index order.
pub uninterp spec fn graph_nodes(
    g: petgraph::graph::Graph<String, u8, petgraph::Directed, u32>,
) -> Seq<Seq<char>>;

/// The edges of the graph, as (source index, target index) pairs in
/// insertion order.
pub uninterp spec fn graph_edges(
    g: petgraph::graph::Graph<String, u8, petgraph::Directed, u32>,
) -> Seq<(int, int)>;

/// An empty directed graph.
///
/// Relies on `petgraph::graph::Graph::new`.
#[verifier::external_body]
fn pg_new() -> (g: petgraph::graph::Graph<String, u8, petgraph::Directed, u32>)
    ensures
        graph_nodes(g) == Seq::<Seq<char>>::empty(),
        graph_edges(g) == Seq::<(int, int)>::empty(),
{
    petgraph::graph::Graph::new()
}

/// Appends a node; its index is the previous node count.
///
/// Relies on `petgraph::graph::Graph::add_node`, which appends the weight
/// and returns its index, panicking only at the index type's maximum.
#[verifier::external_body]
fn pg_add_node(
    g: &mut petgraph::graph::Graph<String, u8, petgraph::Directed, u32>,
    w: &str,
) -> (r: usize)
    requires
        graph_nodes(*old(g)).len() < 0xFFFF_FFFF,
    ensures
        r == graph_nodes(*old(g)).len(),
        graph_nodes(*final(g)) == graph_nodes(*old(g)).push(w@),
        graph_edges(*final(g)) == graph_edges(*old(g)),
{
    g.add_node(w.to_owned()).index()
}

/// Appends an edge between two existing nodes.
///
/// Relies on `petgraph::graph::Graph::add_edge`, which panics only when a
/// node index is out of bounds or the edge count is at the index type's
/// maximum.
#[verifier::external_body]
fn pg_add_edge(
    g: &mut petgraph::graph::Graph<String, u8, petgraph::Directed, u32>,
    a: usize,
    b: usize,
    kind: u8,
)
    requires
        a < graph_nodes(*old(g)).len(),
        b < graph_nodes(*old(g)).len(),
        graph_edges(*old(g)).len() < 0xFFFF_FFFF,
    ensures
        graph_nodes(*final(g)) == graph_nodes(*old(g)),
        graph_edges(*final(g)) == graph_edges(*old(g)).push((a as int, b as int)),
{
    g.add_edge(
        petgraph::graph::NodeIndex::new(a),
        petgraph::graph::NodeIndex::new(b),
        kind,
    );
}

/// True when the graph holds an edge from `a` to `b`.
///
/// Relies on `petgraph::graph::Graph::find_edge`.
#[verifier::external_body]
fn pg_has_edge(
    g: &petgraph::graph::Graph<String, u8, petgraph::Directed, u32>,
    a: usize,
    b: usize,
) -> (r: bool)
    ensures
        r == graph_edges(*g).contains((a as int, b as int)),
{
    g.find_edge(petgraph::graph::NodeIndex::new(a), petgraph::graph::NodeIndex::new(b))
        .is_some()
}

/// True when the edge relation has a cycle.
///
/// Relies on `petgraph::algo::is_cyclic_directed`.
#[verifier::external_body]
fn pg_is_cyclic(g: &petgraph::graph::Graph<String, u8, petgraph::Directed, u32>) -> (r: bool)
    ensures
        r == has_cycle(graph_edges(*g)),
{
    petgraph::algo::is_cyclic_directed(g)
}

/// A topological order of the nodes, or nothing when the edge relation has
/// a cycle.
///
/// Relies on `petgraph::algo::toposort`, which returns `Err` exactly on
/// cyclic graphs and otherwise every node, each node before its successors.
#[verifier::external_body]
fn pg_toposort(g: &petgraph::graph::Graph<String, u8, petgraph::Directed, u32>) -> (r: Option<
    Vec<usize>,
>)
    ensures
        match r {
            Some(o) => !has_cycle(graph_edges(*g)) && is_index_perm(
                o@.map_values(|u: usize| u as int),
                graph_nodes(*g).len() as int,
            ) && (forall|x: int, y: int|
                0 <= x < o@.len() && 0 <= y < o@.len() && graph_edges(*g).contains(
                    (#[trigger] o@[x] as int, #[trigger] o@[y] as int),
                ) ==> x < y),
            None => has_cycle(graph_edges(*g)),
        },
{
    match petgraph::algo::toposort(g, None) {
        Ok(order) => Some(order.into_iter().map(|n| n.index()).collect()),
        Err(_) => None,
    }
}

/// The strongly connected components of the graph, each a non-empty group
/// of node indices: mutually reachable within a group, and no node outside
/// a group is mutually reachable with a member; every node is in a group.
///
/// Relies on `petgraph::algo::kosaraju_scc`.
#[verifier::external_body]
fn pg_scc(g: &petgraph::graph::Graph<String, u8, petgraph::Directed, u32>) -> (r: Vec<Vec<usize>>)
    ensures
        sccs_wf(r@.map_values(|v: Vec<usize>| v@.map_values(|u: usize| u as int)), graph_nodes(
            *g,
        ).len() as int, graph_edges(*g)),
{
    petgraph::algo::kosaraju_scc(g)
        .into_iter()
        .map(|comp| comp.into_iter().map(|n| n.index()).collect())
        .collect()
}

/// The sources of the edges arriving at node `i`.
///
/// Relies on `petgraph::graph::Graph::neighbors_directed` with the incoming
/// direction.
#[verifier::external_body]
fn pg_neighbors_in(
    g: &petgraph::graph::Graph<String, u8, petgraph::Directed, u32>,
    i: usize,
) -> (r: Vec<usize>)
    ensures
        forall|v: int|
            (exists|p: int| 0 <= p < r@.len() && #[trigger] r@[p] as int == v) <==> graph_edges(
                *g,
            ).contains((v, i as int)),
{
    g.neighbors_directed(petgraph::graph::NodeIndex::new(i), petgraph::Direction::Incoming)
        .map(|n| n.index())
        .collect()
}

/// The targets of the edges leaving node `i`.
///
/// Relies on `petgraph::graph::Graph::neighbors_directed` with the outgoing
/// direction.
#[verifier::external_body]
fn pg_neighbors_out(
    g: &petgraph::graph::Graph<String, u8, petgraph::Directed, u32>,
    i: usize,
) -> (r: Vec<usize>)
    ensures
        forall|v: int|
            (exists|p: int| 0 <= p < r@.len() && #[trigger] r@[p] as int == v) <==> graph_edges(
                *g,
            ).contains((i as int, v)),
{
    g.neighbors_directed(petgraph::graph::NodeIndex::new(i), petgraph::Direction::Outgoing)
        .map(|n| n.index())
        .collect()
}

/// `s` lists each of `0 .. n` exactly once.
pub open spec fn is_index_perm(s: Seq<int>, n: int) -> bool {
    s.len() == n && (forall|i: int| 0 <= i < s.len() ==> 0 <= #[trigger] s[i] < n) && (forall|
        i: int,
        j: int,
    | 0 <= i < j < s.len() ==> s[i] != s[j])
}

/// There is a path of at most `n` edges from `a` to `b`.
pub open spec fn reach_n(edges: Seq<(int, int)>, a: int, b: int, n: nat) -> bool
    decreases n,
{
    a == b || (n > 0 && exists|c: int|
        edges.contains((a, c)) && reach_n(edges, c, b, (n - 1) as nat))
}

/// There is a (possibly empty) path from `a` to `b`.
pub open spec fn reaches(edges: Seq<(int, int)>, a: int, b: int) -> bool {
    exists|n: nat| reach_n(edges, a, b, n)
}

/// The edge relation has a cycle: some edge whose target reaches back to
/// its source.
pub open spec fn has_cycle(edges: Seq<(int, int)>) -> bool {
    exists|a: int, b: int| edges.contains((a, b)) && reaches(edges, b, a)
}

/// What `pg_scc` returns: groups of node indices that are non-empty,
/// within-group distinct, mutually reachable, maximal, and that cover every
/// node.
pub open spec fn sccs_wf(comps: Seq<Seq<int>>, n: int, edges: Seq<(int, int)>) -> bool {
    (forall|k: int| 0 <= k < comps.len() ==> (#[trigger] comps[k]).len() > 0) && (forall|
        k: int,
        p: int,
    | 0 <= k < comps.len() && 0 <= p < comps[k].len() ==> 0 <= #[trigger] comps[k][p] < n) && (
    forall|k: int, p: int, q: int|
        0 <= k < comps.len() && 0 <= p < q < comps[k].len() ==> #[trigger] comps[k][p]
            != #[trigger] comps[k][q]) && (forall|k: int, p: int, q: int|
        0 <= k < comps.len() && 0 <= p < comps[k].len() && 0 <= q < comps[k].len() ==> reaches(
            edges,
            #[trigger] comps[k][p],
            #[trigger] comps[k][q],
        )) && (forall|k: int, p: int, v: int|
        #![trigger reaches(edges, comps[k][p], v), reaches(edges, v, comps[k][p])]
        0 <= k < comps.len() && 0 <= p < comps[k].len() && 0 <= v < n && reaches(
            edges,
            comps[k][p],
            v,
        ) && reaches(edges, v, comps[k][p]) ==> exists|q: int|
            0 <= q < comps[k].len() && comps[k][q] == v) && (forall|v: int|
        0 <= v < n ==> #[trigger] in_some_comp(comps, v))
}

/// `v` appears in some group of `comps`.
pub open spec fn in_some_comp(comps: Seq<Seq<int>>, v: int) -> bool {
    exists|k: int, p: int|
        0 <= k < comps.len() && 0 <= p < comps[k].len() && (#[trigger] comps[k][p]) == v
}

/// A strongly connected component is reported as a cycle when it has more
/// than one node, or a single node with a self-loop.
pub open spec fn comp_is_cycle(c: Seq<int>, edges: Seq<(int, int)>) -> bool {
    c.len() > 1 || (c.len() == 1 && edges.contains((c[0], c[0])))
}

/// The empty path reaches from a node to itself.
proof fn lemma_reach_refl(edges: Seq<(int, int)>, a: int)
    ensures
        reaches(edges, a, a),
{
    assert(reach_n(edges, a, a, 0));
}

/// An edge followed by a path is a path.
proof fn lemma_reach_step(edges: Seq<(int, int)>, a: int, c: int, b: int)
    requires
        edges.contains((a, c)),
        reaches(edges, c, b),
    ensures
        reaches(edges, a, b),
{
    let n = choose|n: nat| reach_n(edges, c, b, n);
    assert(reach_n(edges, a, b, n + 1));
}

/// A bounded path followed by a path is a path.
proof fn lemma_reach_n_trans(edges: Seq<(int, int)>, a: int, b: int, c: int, n: nat)
    requires
        reach_n(edges, a, b, n),
        reaches(edges, b, c),
    ensures
        reaches(edges, a, c),
    decreases n,
{
    if a == b {
    } else {
        let d = choose|d: int| edges.contains((a, d)) && reach_n(edges, d, b, (n - 1) as nat);
        lemma_reach_n_trans(edges, d, b, c, (n - 1) as nat);
        lemma_reach_step(edges, a, d, c);
    }
}

/// Reachability is transitive.
proof fn lemma_reach_trans(edges: Seq<(int, int)>, a: int, b: int, c: int)
    requires
        reaches(edges, a, b),
        reaches(edges, b, c),
    ensures
        reaches(edges, a, c),
{
    let n = choose|n: nat| reach_n(edges, a, b, n);
    lemma_reach_n_trans(edges, a, b, c, n);
}

/// A path between distinct nodes starts with an edge.
proof fn lemma_reach_unfold(edges: Seq<(int, int)>, a: int, b: int)
    requires
        reaches(edges, a, b),
        a != b,
    ensures
        exists|c: int| edges.contains((a, c)) && reaches(edges, c, b),
{
    let n = choose|n: nat| reach_n(edges, a, b, n);
    let c = choose|c: int| edges.contains((a, c)) && reach_n(edges, c, b, (n - 1) as nat);
    assert(edges.contains((a, c)) && reaches(edges, c, b));
}

/// Two distinct, mutually reachable nodes witness a cycle.
proof fn lemma_cycle_from_mutual(edges: Seq<(int, int)>, u: int, v: int)
    requires
        u != v,
        reaches(edges, u, v),
        reaches(edges, v, u),
    ensures
        has_cycle(edges),
{
    lemma_reach_unfold(edges, u, v);
    let c = choose|c: int| edges.contains((u, c)) && reaches(edges, c, v);
    lemma_reach_trans(edges, c, v, u);
    assert(edges.contains((u, c)) && reaches(edges, c, u));
}

/// A self-loop is a cycle.
proof fn lemma_cycle_self(edges: Seq<(int, int)>, v: int)
    requires
        edges.contains((v, v)),
    ensures
        has_cycle(edges),
{
    lemma_reach_refl(edges, v);
    assert(edges.contains((v, v)) && reaches(edges, v, v));
}

/// Among well-formed strongly connected components, some group is a cycle
/// group exactly when the edge relation has a cycle.
proof fn lemma_scc_cycle_iff(comps: Seq<Seq<int>>, n: int, edges: Seq<(int, int)>)
    requires
        sccs_wf(comps, n, edges),
        forall|x: int, y: int| edges.contains((x, y)) ==> 0 <= x < n && 0 <= y < n,
    ensures
        (exists|k: int| 0 <= k < comps.len() && comp_is_cycle(#[trigger] comps[k], edges))
            <==> has_cycle(edges),
{
    if exists|k: int| 0 <= k < comps.len() && comp_is_cycle(#[trigger] comps[k], edges) {
        let k = choose|k: int| 0 <= k < comps.len() && comp_is_cycle(#[trigger] comps[k], edges);
        let c = comps[k];
        if c.len() > 1 {
            assert(reaches(edges, c[0], c[1]));
            assert(reaches(edges, c[1], c[0]));
            assert(c[0] != c[1]);
            lemma_cycle_from_mutual(edges, c[0], c[1]);
        } else {
            lemma_cycle_self(edges, c[0]);
        }
    }
    if has_cycle(edges) {
        let (a0, b0) = choose|a0: int, b0: int|
            edges.contains((a0, b0)) && reaches(edges, b0, a0);
        assert(0 <= a0 < n && 0 <= b0 < n);
        assert(in_some_comp(comps, a0));
        let (k, p) = choose|k: int, p: int|
            0 <= k < comps.len() && 0 <= p < comps[k].len() && (#[trigger] comps[k][p]) == a0;
        if a0 == b0 {
            if comps[k].len() > 1 {
                assert(comp_is_cycle(comps[k], edges));
            } else {
                assert(p == 0);
                assert(edges.contains((comps[k][0], comps[k][0])));
                assert(comp_is_cycle(comps[k], edges));
            }
        } else {
            lemma_reach_refl(edges, b0);
            lemma_reach_step(edges, a0, b0, b0);
            assert(reaches(edges, comps[k][p], b0));
            assert(reaches(edges, b0, comps[k][p]));
            let q = choose|q: int| 0 <= q < comps[k].len() && comps[k][q] == b0;
            assert(p != q);
            assert(comps[k].len() > 1);
            assert(comp_is_cycle(comps[k], edges));
        }
        assert(exists|k2: int| 0 <= k2 < comps.len() && comp_is_cycle(#[trigger] comps[k2], edges));
    }
}

/// The index of the first issue of `s` whose id is `id`, or `s.len()` when
/// there is none.
pub open spec fn first_idx_with_id(s: Seq<IssueView>, id: Seq<char>) -> int
    decreases s.len(),
{
    if s.len() == 0 {
        0
    } else if s[0].id == id {
        0
    } else {
        1 + first_idx_with_id(s.skip(1), id)
    }
}

/// `first_idx_with_id` finds the first matching issue, or runs off the end.
pub proof fn lemma_first_idx(s: Seq<IssueView>, id: Seq<char>)
    ensures
        0 <= first_idx_with_id(s, id) <= s.len(),
        first_idx_with_id(s, id) < s.len() ==> s[first_idx_with_id(s, id)].id == id && (forall|
            j: int,
        | 0 <= j < first_idx_with_id(s, id) ==> s[j].id != id),
        first_idx_with_id(s, id) == s.len() ==> (forall|j: int|
            0 <= j < s.len() ==> (#[trigger] s[j]).id != id),
    decreases s.len(),
{
    if s.len() > 0 && s[0].id != id {
        lemma_first_idx(s.skip(1), id);
        let f = first_idx_with_id(s, id);
        if f < s.len() {
            assert(s.skip(1)[f - 1] == s[f]);
            assert forall|j: int| 0 <= j < f implies s[j].id != id by {
                if j >= 1 {
                    assert(s.skip(1)[j - 1] == s[j]);
                }
            }
        } else {
            assert forall|j: int| 0 <= j < s.len() implies (#[trigger] s[j]).id != id by {
                if j >= 1 {
                    assert(s.skip(1)[j - 1] == s[j]);
                }
            }
        }
    }
}

/// There is a dependency edge from snapshot position `a` to position `b`:
/// some dependency of issue `a` names the id of issue `b`, and `b` is the
/// first position holding that id.
pub open spec fn snapshot_edge(s: Seq<IssueView>, a: int, b: int) -> bool {
    0 <= a < s.len() && 0 <= b < s.len() && exists|di: int|
        0 <= di < s[a].dependencies.len() && b == first_idx_with_id(
            s,
            (#[trigger] s[a].dependencies[di]).depends_on_id,
        ) && s[b].id == s[a].dependencies[di].depends_on_id
}

/// The edge a neighbor query speaks of: into the center when `incoming`,
/// out of it otherwise.
pub open spec fn dir_edge(incoming: bool, center: int, v: int) -> (int, int) {
    if incoming {
        (v, center)
    } else {
        (center, v)
    }
}

/// The model of an `IssueGraph`: node ids in index order, and the edge
/// relation over node indices.
#[verifier::ext_equal]
pub ghost struct GraphModel {
    pub ids: Seq<Seq<char>>,
    pub edges: Seq<(int, int)>,
}

/// A dependency graph built from a snapshot of issues: one node per issue,
/// one edge per dependency whose target is in the snapshot.
pub struct IssueGraph {
    graph: petgraph::graph::Graph<String, u8, petgraph::Directed, u32>,
    ids: Vec<String>,
}

impl View for IssueGraph {
    type V = GraphModel;

    closed spec fn view(&self) -> GraphModel {
        GraphModel { ids: graph_nodes(self.graph), edges: graph_edges(self.graph) }
    }
}

impl IssueGraph {
    /// The id list mirrors the graph's nodes and every edge joins two
    /// existing nodes.
    pub closed spec fn wf(&self) -> bool {
        self.ids@.map_values(|s: String| s@) == graph_nodes(self.graph) && (forall|e: (int, int)|
            graph_edges(self.graph).contains(e) ==> 0 <= e.0 < graph_nodes(self.graph).len()
                && 0 <= e.1 < graph_nodes(self.graph).len())
    }

    /// Builds the graph of a snapshot: nodes in snapshot order, one edge
    /// for every dependency whose target id is in the snapshot (pointing at
    /// the first issue holding it), dependencies leading outside silently
    /// omitted.
    #[verifier::loop_isolation(false)]
    pub fn from_issues(issues: &[Issue]) -> (r: IssueGraph)
        requires
            issues@.len() < 0x10000,
            forall|j: int|
                0 <= j < issues@.len() ==> (#[trigger] issues@[j]).dependencies@.len() < 0x10000,
        ensures
            r.wf(),
            r@.ids == issues@.map_values(|x: Issue| x@).map_values(|v: IssueView| v.id),
            forall|a: int, b: int|
                #[trigger] r@.edges.contains((a, b)) <==> snapshot_edge(
                    issues@.map_values(|x: Issue| x@),
                    a,
                    b,
                ),
    {
        let ghost snapshot = issues@.map_values(|x: Issue| x@);
        let mut g = pg_new();
        let mut ids: Vec<String> = Vec::new();
        let n = issues.len();
        let mut i: usize = 0;
        while i < n
            invariant
                n == issues@.len(),
                n < 0x10000,
                i <= n,
                snapshot == issues@.map_values(|x: Issue| x@),
                ids@.len() == i,
                graph_nodes(g) =~= snapshot.map_values(|v: IssueView| v.id).take(i as int),
                ids@.map_values(|s: String| s@) =~= graph_nodes(g),
                graph_edges(g) == Seq::<(int, int)>::empty(),
            decreases n - i,
        {
            let idx = pg_add_node(&mut g, issues[i].id.as_str());
            ids.push(issues[i].id.clone());
            proof {
                assert(graph_nodes(g) =~= snapshot.map_values(|v: IssueView| v.id).take(i + 1));
                assert(ids@.map_values(|s: String| s@) =~= graph_nodes(g));
            }
            i += 1;
        }
        proof {
            assert(snapshot.map_values(|v: IssueView| v.id).take(n as int) =~= snapshot.map_values(
                |v: IssueView| v.id,
            ));
        }
        // Add one edge per dependency whose target is in the snapshot.
        let mut a: usize = 0;
        while a < n
            invariant
                n == issues@.len(),
                n < 0x10000,
                a <= n,
                snapshot == issues@.map_values(|x: Issue| x@),
                forall|j: int|
                    0 <= j < issues@.len() ==> (#[trigger] issues@[j]).dependencies@.len()
                        < 0x10000,
                graph_nodes(g) == snapshot.map_values(|v: IssueView| v.id),
                ids@.map_values(|s: String| s@) == graph_nodes(g),
                graph_edges(g).len() <= a * 0x10000,
                forall|x: int, y: int|
                    #[trigger] graph_edges(g).contains((x, y)) ==> snapshot_edge(snapshot, x, y),
                forall|x: int, y: int|
                    0 <= x < a && snapshot_edge(snapshot, x, y) ==> graph_edges(g).contains(
                        (x, y),
                    ),
            decreases n - a,
        {
            let deps_len = issues[a].dependencies.len();
            let mut di: usize = 0;
            while di < deps_len
                invariant
                    n == issues@.len(),
                    n < 0x10000,
                    a < n,
                    snapshot == issues@.map_values(|x: Issue| x@),
                    deps_len == snapshot[a as int].dependencies.len(),
                    deps_len < 0x10000,
                    di <= deps_len,
                    graph_nodes(g) == snapshot.map_values(|v: IssueView| v.id),
                    ids@.map_values(|s: String| s@) == graph_nodes(g),
                    graph_edges(g).len() <= a * 0x10000 + di,
                    forall|x: int, y: int|
                        #[trigger] graph_edges(g).contains((x, y)) ==> snapshot_edge(
                            snapshot,
                            x,
                            y,
                        ),
                    forall|x: int, y: int|
                        0 <= x < a && snapshot_edge(snapshot, x, y) ==> graph_edges(g).contains(
                            (x, y),
                        ),
                    forall|dj: int|
                        0 <= dj < di ==> ({
                            let y = first_idx_with_id(
                                snapshot,
                                (#[trigger] snapshot[a as int].dependencies[dj]).depends_on_id,
                            );
                            (0 <= y < snapshot.len() && snapshot[y].id == snapshot[
                                a as int
                            ].dependencies[dj].depends_on_id) ==> graph_edges(g).contains(
                                (a as int, y),
                            )
                        }),
                decreases deps_len - di,
            {
                let target = &issues[a].dependencies[di].depends_on_id;
                let ghost tid = snapshot[a as int].dependencies[di as int].depends_on_id;
                assert(target@ == tid);
                match Self::find_id_index(issues, target.as_str()) {
                    Some(b) => {
                        proof {
                            lemma_first_idx(snapshot, tid);
                            assert(a * 0x10000 + di < 0xFFFF_FFFF) by (nonlinear_arith)
                                requires
                                    0 <= a <= 0xFFFE,
                                    0 <= di <= 0xFFFF,
                            ;
                        }
                        let ghost edges0 = graph_edges(g);
                        pg_add_edge(&mut g, a, b, issues[a].dependencies[di].dep_type_code());
                        proof {
                            assert(snapshot_edge(snapshot, a as int, b as int));
                            assert forall|x: int, y: int|
                                edges0.contains((x, y)) implies graph_edges(g).contains(
                                (x, y),
                            ) by {
                                let k = choose|k: int|
                                    0 <= k < edges0.len() && edges0[k] == (x, y);
                                assert(graph_edges(g)[k] == (x, y));
                            }
                            assert(graph_edges(g)[graph_edges(g).len() - 1] == (
                                a as int,
                                b as int,
                            ));
                            assert(graph_edges(g).contains((a as int, b as int)));
                            assert forall|x: int, y: int|
                                #[trigger] graph_edges(g).contains((x, y)) implies snapshot_edge(
                                snapshot,
                                x,
                                y,
                            ) by {
                                let k = choose|k: int|
                                    0 <= k < graph_edges(g).len() && graph_edges(g)[k] == (x, y);
                                if k < edges0.len() {
                                    assert(edges0[k] == (x, y));
                                    assert(edges0.contains((x, y)));
                                } else {
                                    assert((x, y) == (a as int, b as int));
                                }
                            }
                        }
                    },
                    None => {
                        proof {
                            lemma_first_idx(snapshot, tid);
                        }
                    },
                }
                di += 1;
            }
            proof {
                assert((a + 1) * 0x10000 >= a * 0x10000 + deps_len) by (nonlinear_arith)
                    requires
                        deps_len <= 0x10000,
                ;
                assert forall|x: int, y: int|
                    0 <= x < a + 1 && snapshot_edge(snapshot, x, y) implies graph_edges(
                    g,
                ).contains((x, y)) by {
                    if x == a as int {
                        let di0 = choose|di0: int|
                            0 <= di0 < snapshot[x].dependencies.len() && y == first_idx_with_id(
                                snapshot,
                                (#[trigger] snapshot[x].dependencies[di0]).depends_on_id,
                            ) && snapshot[y].id == snapshot[x].dependencies[di0].depends_on_id;
                        assert(graph_edges(g).contains((a as int, y)));
                    }
                }
            }
            a += 1;
        }
        proof {
            assert forall|e: (int, int)| graph_edges(g).contains(e) implies 0 <= e.0
                < graph_nodes(g).len() && 0 <= e.1 < graph_nodes(g).len() by {
                assert(e == (e.0, e.1));
                assert(graph_edges(g).contains((e.0, e.1)));
                assert(snapshot_edge(snapshot, e.0, e.1));
            }
        }
        let r = IssueGraph { graph: g, ids: ids };
        proof {
            assert(r@.ids =~= issues@.map_values(|x: Issue| x@).map_values(|v: IssueView| v.id));
        }
        r
    }

    /// The position of the first issue with the given id in the snapshot.
    #[verifier::loop_isolation(false)]
    fn find_id_index(issues: &[Issue], id: &str) -> (r: Option<usize>)
        ensures
            match r {
                Some(b) => b == first_idx_with_id(issues@.map_values(|x: Issue| x@), id@) && b
                    < issues@.len() && issues@.map_values(|x: Issue| x@)[b as int].id == id@,
                None => first_idx_with_id(issues@.map_values(|x: Issue| x@), id@)
                    == issues@.len(),
            },
    {
        let ghost snapshot = issues@.map_values(|x: Issue| x@);
        proof {
            lemma_first_idx(snapshot, id@);
        }
        let mut i: usize = 0;
        while i < issues.len()
            invariant
                i <= issues@.len(),
                snapshot == issues@.map_values(|x: Issue| x@),
                forall|j: int| 0 <= j < i ==> (#[trigger] snapshot[j]).id != id@,
            decreases issues@.len() - i,
        {
            if crate::strutil::str_eq(issues[i].id.as_str(), id) {
                proof {
                    assert(snapshot[i as int].id == id@);
                    if first_idx_with_id(snapshot, id@) < i as int {
                        assert(snapshot[first_idx_with_id(snapshot, id@)].id == id@);
                    }
                }
                return Some(i);
            }
            i += 1;
        }
        proof {
            if first_idx_with_id(snapshot, id@) < snapshot.len() {
                assert(snapshot[first_idx_with_id(snapshot, id@)].id == id@);
            }
        }
        None
    }

    /// True when the dependency relation has a cycle.
    pub fn has_cycles(&self) -> (r: bool)
        ensures
            r == has_cycle(self@.edges),
    {
        pg_is_cyclic(&self.graph)
    }

    /// The cycles of the dependency relation: every strongly connected
    /// component of more than one issue, and every single issue that
    /// depends on itself, as groups of issue ids. The result is empty
    /// exactly when the relation has no cycle.
    #[verifier::loop_isolation(false)]
    pub fn find_cycles(&self) -> (r: Vec<Vec<String>>)
        requires
            self.wf(),
        ensures
            (r@.len() == 0) <==> !has_cycle(self@.edges),
            forall|k: int| 0 <= k < r@.len() ==> (#[trigger] r@[k])@.len() > 0,
            exists|comps: Seq<Seq<int>>|
                #[trigger] sccs_wf(comps, self@.ids.len() as int, self@.edges) && r@.map_values(
                    |g: Vec<String>| g@.map_values(|s: String| s@),
                ) == comps.filter(|c: Seq<int>| comp_is_cycle(c, self@.edges)).map_values(
                    |c: Seq<int>| c.map_values(|v: int| self@.ids[v]),
                ),
    {
        let comps = pg_scc(&self.graph);
        let ghost cmodel = comps@.map_values(|v: Vec<usize>| v@.map_values(|u: usize| u as int));
        let ghost n = graph_nodes(self.graph).len() as int;
        let ghost pred = |c: Seq<int>| comp_is_cycle(c, self@.edges);
        let ghost to_ids = |c: Seq<int>| c.map_values(|v: int| self@.ids[v]);
        let mut out: Vec<Vec<String>> = Vec::new();
        let mut k: usize = 0;
        proof {
            assert(out@.map_values(|g: Vec<String>| g@.map_values(|s: String| s@))
                =~= cmodel.take(0).filter(pred).map_values(to_ids));
        }
        while k < comps.len()
            invariant
                k <= comps@.len(),
                cmodel == comps@.map_values(|v: Vec<usize>| v@.map_values(|u: usize| u as int)),
                pred == (|c: Seq<int>| comp_is_cycle(c, self@.edges)),
                to_ids == (|c: Seq<int>| c.map_values(|v: int| self@.ids[v])),
                (out@.len() > 0) <==> (exists|k2: int|
                    0 <= k2 < k && comp_is_cycle(#[trigger] cmodel[k2], self@.edges)),
                forall|k2: int| 0 <= k2 < out@.len() ==> (#[trigger] out@[k2])@.len() > 0,
                out@.map_values(|g: Vec<String>| g@.map_values(|s: String| s@)) == cmodel.take(
                    k as int,
                ).filter(pred).map_values(to_ids),
            decreases comps@.len() - k,
        {
            proof {
                crate::strutil::lemma_filter_step(cmodel, pred, k as int);
            }
            let comp = &comps[k];
            let ghost cm = cmodel[k as int];
            proof {
                assert(cm == comps@[k as int]@.map_values(|u: usize| u as int));
                assert(cm.len() > 0);
            }
            let is_cycle_group: bool = if comp.len() > 1 {
                true
            } else {
                proof {
                    assert(cm[0] == comp@[0] as int);
                    assert(0 <= cm[0] < n);
                }
                pg_has_edge(&self.graph, comp[0], comp[0])
            };
            proof {
                assert(is_cycle_group == comp_is_cycle(cm, self@.edges));
            }
            if is_cycle_group {
                let mut group: Vec<String> = Vec::new();
                let mut p: usize = 0;
                while p < comp.len()
                    invariant
                        p <= comp@.len(),
                        cm == comp@.map_values(|u: usize| u as int),
                        group@.len() == p,
                        forall|q: int|
                            0 <= q < p ==> (#[trigger] group@[q])@ == self@.ids[cm[q]],
                    decreases comp@.len() - p,
                {
                    let idx = comp[p];
                    proof {
                        assert(cm[p as int] == comp@[p as int] as int);
                        assert(0 <= cm[p as int] < n);
                    }
                    group.push(self.ids[idx].clone());
                    p += 1;
                }
                proof {
                    assert(group@.map_values(|s: String| s@) =~= to_ids(cm));
                }
                out.push(group);
                proof {
                    assert(comp_is_cycle(cmodel[k as int], self@.edges));
                    assert(out@.map_values(|g: Vec<String>| g@.map_values(|s: String| s@))
                        =~= cmodel.take(k as int).filter(pred).map_values(to_ids).push(
                        to_ids(cm),
                    ));
                    assert(cmodel.take(k + 1).filter(pred).map_values(to_ids) =~= cmodel.take(
                        k as int,
                    ).filter(pred).map_values(to_ids).push(to_ids(cm)));
                }
            } else {
                proof {
                    assert(!pred(cm));
                }
            }
            k += 1;
        }
        proof {
            assert(cmodel.take(cmodel.len() as int) =~= cmodel);
            assert forall|x: int, y: int|
                self@.edges.contains((x, y)) implies 0 <= x < n && 0 <= y < n by {
                assert(self@.edges.contains(((x, y).0, (x, y).1)));
            }
            lemma_scc_cycle_iff(cmodel, n, self@.edges);
            assert(sccs_wf(cmodel, self@.ids.len() as int, self@.edges));
        }
        out
    }

    /// A linear extension of the dependency relation — every edge's source
    /// placed before its target — or nothing when the relation is cyclic.
    #[verifier::loop_isolation(false)]
    pub fn topological_order(&self) -> (r: Option<Vec<String>>)
        requires
            self.wf(),
        ensures
            match r {
                Some(o) => !has_cycle(self@.edges) && (exists|ord: Seq<int>|
                    #[trigger] is_index_perm(ord, self@.ids.len() as int) && o@.map_values(
                        |s: String| s@,
                    ) == ord.map_values(|x: int| self@.ids[x]) && (forall|x: int, y: int|
                        0 <= x < ord.len() && 0 <= y < ord.len() && self@.edges.contains(
                            (ord[x], ord[y]),
                        ) ==> x < y)),
                None => has_cycle(self@.edges),
            },
    {
        match pg_toposort(&self.graph) {
            Some(order) => {
                let ghost ord = order@.map_values(|u: usize| u as int);
                let mut out: Vec<String> = Vec::new();
                let mut i: usize = 0;
                while i < order.len()
                    invariant
                        self.wf(),
                        i <= order@.len(),
                        ord == order@.map_values(|u: usize| u as int),
                        is_index_perm(ord, self@.ids.len() as int),
                        out@.map_values(|s: String| s@) =~= ord.map_values(
                            |x: int| self@.ids[x],
                        ).take(i as int),
                    decreases order@.len() - i,
                {
                    let idx = order[i];
                    assert(0 <= ord[i as int] < self@.ids.len());
                    out.push(self.ids[idx].clone());
                    proof {
                        assert(out@.map_values(|s: String| s@) =~= ord.map_values(
                            |x: int| self@.ids[x],
                        ).take(i + 1));
                    }
                    i += 1;
                }
                proof {
                    assert(ord.map_values(|x: int| self@.ids[x]).take(ord.len() as int)
                        =~= ord.map_values(|x: int| self@.ids[x]));
                }
                Some(out)
            },
            None => None,
        }
    }

    /// The issues of the snapshot that are ready to work on: open, and not
    /// blocked by any open issue of the same snapshot.
    #[verifier::loop_isolation(false)]
    pub fn ready_issues(&self, issues: &[Issue]) -> (r: Vec<Issue>)
        ensures
            r@.map_values(|x: Issue| x@) == issues@.map_values(|x: Issue| x@).filter(
                |v: IssueView| status_is_open(v.status) && !blocked_within(
                    v,
                    issues@.map_values(|x: Issue| x@),
                ),
            ),
    {
        let ghost snapshot = issues@.map_values(|x: Issue| x@);
        let ghost pred = |v: IssueView| status_is_open(v.status) && !blocked_within(v, snapshot);
        let mut out: Vec<Issue> = Vec::new();
        let mut i: usize = 0;
        while i < issues.len()
            invariant
                i <= issues@.len(),
                snapshot == issues@.map_values(|x: Issue| x@),
                pred == (|v: IssueView| status_is_open(v.status) && !blocked_within(
                    v,
                    snapshot,
                )),
                out@.map_values(|x: Issue| x@) == snapshot.take(i as int).filter(pred),
            decreases issues@.len() - i,
        {
            proof {
                crate::strutil::lemma_filter_step(snapshot, pred, i as int);
            }
            if issues[i].status.is_open() && !issues[i].is_blocked_by(issues) {
                out.push(issues[i].clone());
                proof {
                    assert(pred(snapshot[i as int]));
                    assert(out@.map_values(|x: Issue| x@) =~= snapshot.take(i as int).filter(
                        pred,
                    ).push(snapshot[i as int]));
                }
            } else {
                proof {
                    assert(!pred(snapshot[i as int]));
                }
            }
            i += 1;
        }
        proof {
            assert(snapshot.take(snapshot.len() as int) =~= snapshot);
        }
        out
    }

    /// The ids of the issues that directly depend on `issue_id` (one hop in
    /// the edge relation, dependency types not distinguished).
    pub fn blocked_by(&self, issue_id: &str) -> (r: Vec<String>)
        requires
            self.wf(),
        ensures
            forall|s: Seq<char>|
                #[trigger] lists_id(r@, s) <==> neighbor_id(self@, issue_id@, true, s),
    {
        match self.find_own_index(issue_id) {
            Some(i) => {
                let sources = pg_neighbors_in(&self.graph, i);
                self.map_indices_to_ids(sources, Ghost(i as int), Ghost(true), issue_id)
            },
            None => {
                let r: Vec<String> = Vec::new();
                proof {
                    lemma_first_id_idx(self@.ids, issue_id@);
                    if first_id_idx(self@.ids, issue_id@) < self@.ids.len() {
                        assert(self@.ids[first_id_idx(self@.ids, issue_id@)] == issue_id@);
                    }
                    assert forall|s: Seq<char>| !lists_id(r@, s) && !neighbor_id(
                        self@,
                        issue_id@,
                        true,
                        s,
                    ) by {
                        assert(first_id_idx(self@.ids, issue_id@) == self@.ids.len());
                    }
                }
                r
            },
        }
    }

    /// The ids of the issues that `issue_id` directly depends on.
    pub fn blocking(&self, issue_id: &str) -> (r: Vec<String>)
        requires
            self.wf(),
        ensures
            forall|s: Seq<char>|
                #[trigger] lists_id(r@, s) <==> neighbor_id(self@, issue_id@, false, s),
    {
        match self.find_own_index(issue_id) {
            Some(i) => {
                let targets = pg_neighbors_out(&self.graph, i);
                self.map_indices_to_ids(targets, Ghost(i as int), Ghost(false), issue_id)
            },
            None => {
                let r: Vec<String> = Vec::new();
                proof {
                    lemma_first_id_idx(self@.ids, issue_id@);
                    if first_id_idx(self@.ids, issue_id@) < self@.ids.len() {
                        assert(self@.ids[first_id_idx(self@.ids, issue_id@)] == issue_id@);
                    }
                    assert forall|s: Seq<char>| !lists_id(r@, s) && !neighbor_id(
                        self@,
                        issue_id@,
                        false,
                        s,
                    ) by {
                        assert(first_id_idx(self@.ids, issue_id@) == self@.ids.len());
                    }
                }
                r
            },
        }
    }

    /// The node index of the issue with the given id, if it is in the
    /// graph.
    #[verifier::loop_isolation(false)]
    fn find_own_index(&self, id: &str) -> (r: Option<usize>)
        requires
            self.wf(),
        ensures
            match r {
                Some(i) => i < self@.ids.len() && self@.ids[i as int] == id@ && i
                    == first_id_idx(self@.ids, id@),
                None => forall|j: int| 0 <= j < self@.ids.len() ==> self@.ids[j] != id@,
            },
    {
        let mut i: usize = 0;
        while i < self.ids.len()
            invariant
                self.wf(),
                i <= self@.ids.len(),
                forall|j: int| 0 <= j < i ==> self@.ids[j] != id@,
            decreases self@.ids.len() - i,
        {
            if crate::strutil::str_eq(self.ids[i].as_str(), id) {
                proof {
                    assert(self@.ids[i as int] == id@);
                    lemma_first_id_idx(self@.ids, id@);
                    if first_id_idx(self@.ids, id@) < i as int {
                        assert(self@.ids[first_id_idx(self@.ids, id@)] == id@);
                    }
                }
                return Some(i);
            }
            i += 1;
        }
        None
    }

    /// Maps a vector of node indices to their ids; the iff contract of the
    /// neighbor wrappers is carried over to id level.
    #[verifier::loop_isolation(false)]
    fn map_indices_to_ids(
        &self,
        indices: Vec<usize>,
        center: Ghost<int>,
        incoming: Ghost<bool>,
        issue_id: &str,
    ) -> (r: Vec<String>)
        requires
            self.wf(),
            0 <= center@ < self@.ids.len(),
            self@.ids[center@] == issue_id@,
            center@ == first_id_idx(self@.ids, issue_id@),
            forall|v: int|
                (exists|p: int| 0 <= p < indices@.len() && #[trigger] indices@[p] as int == v)
                    <==> self@.edges.contains(dir_edge(incoming@, center@, v)),
        ensures
            forall|s: Seq<char>|
                #[trigger] lists_id(r@, s) <==> neighbor_id(self@, issue_id@, incoming@, s),
    {
        let mut out: Vec<String> = Vec::new();
        let mut p: usize = 0;
        while p < indices.len()
            invariant
                self.wf(),
                p <= indices@.len(),
                out@.len() == p,
                forall|q: int|
                    0 <= q < p ==> self@.edges.contains(dir_edge(incoming@, center@, indices@[q] as int)),
                forall|q: int|
                    0 <= q < p ==> (indices@[q] as int) < self@.ids.len() && (
                    #[trigger] out@[q])@ == self@.ids[indices@[q] as int],
            decreases indices@.len() - p,
        {
            let v = indices[p];
            proof {
                assert(exists|pp: int|
                    0 <= pp < indices@.len() && #[trigger] indices@[pp] as int == v as int);
                assert(self@.edges.contains(dir_edge(incoming@, center@, v as int)));
            }
            out.push(self.ids[v].clone());
            p += 1;
        }
        proof {
            assert forall|s: Seq<char>| lists_id(out@, s) implies neighbor_id(
                self@,
                issue_id@,
                incoming@,
                s,
            ) by {
                let q = choose|q: int| 0 <= q < out@.len() && (#[trigger] out@[q])@ == s;
                let v = indices@[q] as int;
                assert(self@.edges.contains(dir_edge(incoming@, center@, v)));
                assert(self@.ids[v] == s);
            }
            assert forall|s: Seq<char>| neighbor_id(self@, issue_id@, incoming@, s) implies
                lists_id(out@, s) by {
                let v = choose|v: int|
                    0 <= v < self@.ids.len() && #[trigger] self@.ids[v] == s
                        && self@.edges.contains(dir_edge(incoming@, center@, v));
                let q = choose|q: int|
                    0 <= q < indices@.len() && #[trigger] indices@[q] as int == v;
                assert((out@[q])@ == self@.ids[v]);
                assert(lists_id(out@, s));
            }
        }
        out
    }
}

/// `out` holds a string whose view is `s`.
pub open spec fn lists_id(out: Seq<String>, s: Seq<char>) -> bool {
    exists|p: int| 0 <= p < out.len() && (#[trigger] out[p])@ == s
}

/// `s` is the id of a node adjacent to the node of `issue_id` (its first
/// occurrence), in the given direction.
pub open spec fn neighbor_id(m: GraphModel, issue_id: Seq<char>, incoming: bool, s: Seq<char>) -> bool {
    let i = first_id_idx(m.ids, issue_id);
    i < m.ids.len() && exists|v: int|
        0 <= v < m.ids.len() && #[trigger] m.ids[v] == s && m.edges.contains(
            dir_edge(incoming, i, v),
        )
}

/// The index of the first id of `ids` equal to `id`, or `ids.len()` when
/// there is none.
pub open spec fn first_id_idx(ids: Seq<Seq<char>>, id: Seq<char>) -> int
    decreases ids.len(),
{
    if ids.len() == 0 {
        0
    } else if ids[0] == id {
        0
    } else {
        1 + first_id_idx(ids.skip(1), id)
    }
}

/// `first_id_idx` finds the first match, or runs off the end.
proof fn lemma_first_id_idx(ids: Seq<Seq<char>>, id: Seq<char>)
    ensures
        0 <= first_id_idx(ids, id) <= ids.len(),
        first_id_idx(ids, id) < ids.len() ==> ids[first_id_idx(ids, id)] == id && (forall|j: int|
            0 <= j < first_id_idx(ids, id) ==> ids[j] != id),
        first_id_idx(ids, id) == ids.len() ==> (forall|j: int|
            0 <= j < ids.len() ==> ids[j] != id),
    decreases ids.len(),
{
    if ids.len() > 0 && ids[0] != id {
        lemma_first_id_idx(ids.skip(1), id);
        let f = first_id_idx(ids, id);
        if f < ids.len() {
            assert(ids.skip(1)[f - 1] == ids[f]);
            assert forall|j: int| 0 <= j < f implies ids[j] != id by {
                if j >= 1 {
                    assert(ids.skip(1)[j - 1] == ids[j]);
                }
            }
        } else {
            assert forall|j: int| 0 <= j < ids.len() implies ids[j] != id by {
                if j >= 1 {
                    assert(ids.skip(1)[j - 1] == ids[j]);
                }
            }
        }
    }
}

} // verus!
