//! Undirected connectivity over an edge list, and the graph structure used to
//! decide it.  The structure is petgraph's `Graph`, kept behind trusted
//! wrappers; its contents are named by two uninterpreted functions, and
//! connectivity of what it holds is specified by `spec_connected` below.
use vstd::prelude::*;

verus! {

#[verifier::external_type_specification]
#[verifier::external_body]
#[verifier::reject_recursive_types(N)]
#[verifier::reject_recursive_types(E)]
#[verifier::reject_recursive_types(Ty)]
#[verifier::reject_recursive_types(Ix)]
pub struct ExGraph<N, E, Ty, Ix>(petgraph::graph::Graph<N, E, Ty, Ix>);

#[verifier::external_type_specification]
#[verifier::external_body]
pub struct ExUndirected(petgraph::Undirected);

/// How many vertices the graph holds.
pub uninterp spec fn graph_node_count(g: petgraph::graph::UnGraph<(), ()>) -> nat;

/// The endpoint pairs of the graph's edges, in insertion order.
pub uninterp spec fn graph_edge_seq(g: petgraph::graph::UnGraph<(), ()>) -> Seq<(usize, usize)>;

/// Whether the pair `p` joins `u` and `v`, in either orientation.
pub open spec fn pair_links(p: (usize, usize), u: usize, v: usize) -> bool {
    (p.0 == u && p.1 == v) || (p.0 == v && p.1 == u)
}

/// Whether some edge of the list joins `u` and `v` directly.
pub open spec fn links_in(edges: Seq<(usize, usize)>, u: usize, v: usize) -> bool {
    exists|k: int| 0 <= k < edges.len() && pair_links(#[trigger] edges[k], u, v)
}

/// Whether a path of at most `steps` edges joins `u` to `v`.
pub open spec fn connected_within(edges: Seq<(usize, usize)>, u: usize, v: usize, steps: nat) -> bool
    decreases steps,
{
    u == v || (steps > 0 && exists|w: usize|
        #[trigger] links_in(edges, u, w) && connected_within(edges, w, v, (steps - 1) as nat))
}

/// Whether some path in the undirected edge list joins `u` to `v`.
pub open spec fn spec_connected(edges: Seq<(usize, usize)>, u: usize, v: usize) -> bool {
    exists|steps: nat| connected_within(edges, u, v, steps)
}

pub proof fn lemma_connected_refl(edges: Seq<(usize, usize)>, u: usize)
    ensures
        spec_connected(edges, u, u),
{
    assert(connected_within(edges, u, u, 0));
}

/// One edge prepended to a path keeps the endpoints joined.
pub proof fn lemma_connected_step(edges: Seq<(usize, usize)>, u: usize, w: usize, v: usize)
    requires
        links_in(edges, u, w),
        spec_connected(edges, w, v),
    ensures
        spec_connected(edges, u, v),
{
    let steps = choose|steps: nat| connected_within(edges, w, v, steps);
    assert(connected_within(edges, u, v, steps + 1));
}

proof fn lemma_within_extend_end(edges: Seq<(usize, usize)>, u: usize, v: usize, x: usize, s: nat)
    requires
        connected_within(edges, u, v, s),
        links_in(edges, v, x),
    ensures
        connected_within(edges, u, x, s + 1),
    decreases s,
{
    if u == v {
        assert(connected_within(edges, x, x, (s) as nat));
        assert(connected_within(edges, u, x, s + 1));
    } else {
        let w = choose|w: usize|
            links_in(edges, u, w) && connected_within(edges, w, v, (s - 1) as nat);
        lemma_within_extend_end(edges, w, v, x, (s - 1) as nat);
        assert(links_in(edges, u, w) && connected_within(edges, w, x, s as nat));
        assert(connected_within(edges, u, x, s + 1));
    }
}

/// A direct link is symmetric.
pub proof fn lemma_links_sym(edges: Seq<(usize, usize)>, u: usize, v: usize)
    requires
        links_in(edges, u, v),
    ensures
        links_in(edges, v, u),
{
    let k = choose|k: int| 0 <= k < edges.len() && pair_links(edges[k], u, v);
    assert(pair_links(edges[k], v, u));
}

/// Connectivity is symmetric.
pub proof fn lemma_connected_sym(edges: Seq<(usize, usize)>, u: usize, v: usize)
    requires
        spec_connected(edges, u, v),
    ensures
        spec_connected(edges, v, u),
{
    let steps = choose|steps: nat| connected_within(edges, u, v, steps);
    lemma_within_sym(edges, u, v, steps);
}

proof fn lemma_within_sym(edges: Seq<(usize, usize)>, u: usize, v: usize, s: nat)
    requires
        connected_within(edges, u, v, s),
    ensures
        spec_connected(edges, v, u),
    decreases s,
{
    if u == v {
        lemma_connected_refl(edges, u);
    } else {
        let w = choose|w: usize|
            links_in(edges, u, w) && connected_within(edges, w, v, (s - 1) as nat);
        lemma_within_sym(edges, w, v, (s - 1) as nat);
        let s2 = choose|s2: nat| connected_within(edges, v, w, s2);
        lemma_links_sym(edges, u, w);
        lemma_within_extend_end(edges, v, w, u, s2);
        assert(connected_within(edges, v, u, s2 + 1));
    }
}

/// Connectivity is transitive.
pub proof fn lemma_connected_trans(edges: Seq<(usize, usize)>, u: usize, v: usize, w: usize)
    requires
        spec_connected(edges, u, v),
        spec_connected(edges, v, w),
    ensures
        spec_connected(edges, u, w),
{
    let steps = choose|steps: nat| connected_within(edges, u, v, steps);
    lemma_within_trans(edges, u, v, w, steps);
}

proof fn lemma_within_trans(edges: Seq<(usize, usize)>, u: usize, v: usize, w: usize, s: nat)
    requires
        connected_within(edges, u, v, s),
        spec_connected(edges, v, w),
    ensures
        spec_connected(edges, u, w),
    decreases s,
{
    if u == v {
    } else {
        let x = choose|x: usize|
            links_in(edges, u, x) && connected_within(edges, x, v, (s - 1) as nat);
        lemma_within_trans(edges, x, v, w, (s - 1) as nat);
        lemma_connected_step(edges, u, x, w);
    }
}

/// Vertices all joined to one hub are joined to one another.
pub proof fn lemma_all_connected_through_hub(
    edges: Seq<(usize, usize)>,
    hub: usize,
    vs: Seq<usize>,
)
    requires
        forall|k: int| 0 <= k < vs.len() ==> spec_connected(edges, hub, #[trigger] vs[k]),
    ensures
        forall|i: int, j: int|
            0 <= i < vs.len() && 0 <= j < vs.len() ==> #[trigger] spec_connected(
                edges,
                vs[i],
                vs[j],
            ),
{
    assert forall|i: int, j: int|
        0 <= i < vs.len() && 0 <= j < vs.len() implies #[trigger] spec_connected(
        edges,
        vs[i],
        vs[j],
    ) by {
        lemma_connected_sym(edges, hub, vs[i]);
        lemma_connected_trans(edges, vs[i], hub, vs[j]);
    }
}

/// Relies on petgraph's `Graph::with_capacity`: creates a graph with no nodes
/// and no edges.
#[verifier::external_body]
pub(crate) fn graph_new(nodes: usize, edges: usize) -> (g: petgraph::graph::UnGraph<(), ()>)
    ensures
        graph_node_count(g) == 0,
        graph_edge_seq(g) == Seq::<(usize, usize)>::empty(),
{
    petgraph::graph::UnGraph::<(), ()>::with_capacity(nodes, edges)
}

/// Relies on petgraph's `Graph::add_node`: appends one node and leaves the
/// edges alone.  It panics only when the node count reaches the index type's
/// limit, which is excluded here.
#[verifier::external_body]
pub(crate) fn graph_add_node(g: &mut petgraph::graph::UnGraph<(), ()>)
    requires
        graph_node_count(*old(g)) < 0xFFFF_FFFEusize as nat,
    ensures
        graph_node_count(*final(g)) == graph_node_count(*old(g)) + 1,
        graph_edge_seq(*final(g)) == graph_edge_seq(*old(g)),
{
    g.add_node(());
}

/// Relies on petgraph's `Graph::add_edge`: appends one edge between two
/// existing nodes and leaves the node count alone.  It panics on a missing
/// endpoint or when the edge count reaches the index type's limit, both
/// excluded here.
#[verifier::external_body]
pub(crate) fn graph_add_edge(g: &mut petgraph::graph::UnGraph<(), ()>, a: usize, b: usize)
    requires
        a < graph_node_count(*old(g)),
        b < graph_node_count(*old(g)),
        graph_edge_seq(*old(g)).len() < 0xFFFF_FFFEusize as nat,
    ensures
        graph_node_count(*final(g)) == graph_node_count(*old(g)),
        graph_edge_seq(*final(g)) == graph_edge_seq(*old(g)).push((a, b)),
{
    g.add_edge(petgraph::graph::NodeIndex::new(a), petgraph::graph::NodeIndex::new(b), ());
}

/// Relies on petgraph's `algo::has_path_connecting`: returns whether a path
/// joins `a` to `b` in the graph (true when `a == b`).
#[verifier::external_body]
pub(crate) fn graph_has_path(g: &petgraph::graph::UnGraph<(), ()>, a: usize, b: usize) -> (r: bool)
    requires
        a < graph_node_count(*g),
        b < graph_node_count(*g),
    ensures
        r == spec_connected(graph_edge_seq(*g), a, b),
{
    petgraph::algo::has_path_connecting(
        &*g,
        petgraph::graph::NodeIndex::new(a),
        petgraph::graph::NodeIndex::new(b),
        None,
    )
}

} // verus!
