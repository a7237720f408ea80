use vstd::prelude::*;

pub mod text;
pub mod parser;
pub mod export;
pub mod updates;
pub mod replay;
pub mod rng;
pub mod graph;
pub mod generate;
pub mod synthesize;

pub use generate::{generate_random_with_fixed_vc, generate_vertex_subset};
pub use parser::{Parser, Section};
pub use replay::DynamicInstance;
pub use synthesize::{generate_update_sequence, UpdateProbabilities};
pub use updates::{export_update_sequence, OpView, ParseUpdateError, UpdateOperation};

verus! {

/// A weighted, undirected edge between two 1-based vertex identifiers.
///
/// Costs are whole numbers; every cost this library emits or consumes is an
/// unsigned integer written in decimal.
#[derive(Clone, Copy, PartialEq, Eq, Structural, Debug)]
pub struct Edge {
    pub from: usize,
    pub to: usize,
    pub cost: u64,
}

impl Edge {
    /// Whether this edge joins the same unordered pair of endpoints as
    /// `(from, to)`; costs are not compared.
    pub open spec fn links(self, from: usize, to: usize) -> bool {
        (self.from == from && self.to == to) || (self.from == to && self.to == from)
    }
}

/// Whether some edge in `edges` joins the unordered pair `(from, to)`.
pub open spec fn has_endpoints(edges: Seq<Edge>, from: usize, to: usize) -> bool {
    exists|i: int| 0 <= i < edges.len() && #[trigger] edges[i].links(from, to)
}

/// The mathematical value of a `SteinerInstance`.
pub ghost struct InstanceView {
    pub num_nodes: usize,
    pub num_edges: usize,
    pub num_arcs: usize,
    pub num_obstacles: usize,
    pub num_terminals: usize,
    pub edges: Seq<Edge>,
    pub arcs: Seq<Edge>,
    pub terminals: Seq<usize>,
}

/// One complete problem input: a weighted graph plus its terminal set.
///
/// `arcs` and `num_obstacles` exist for format compatibility only; nothing in
/// this library fills them except the text parser.
#[derive(Debug)]
pub struct SteinerInstance {
    pub num_nodes: usize,
    pub num_edges: usize,
    pub num_arcs: usize,
    pub num_obstacles: usize,
    pub num_terminals: usize,
    pub edges: Vec<Edge>,
    pub arcs: Vec<Edge>,
    pub terminals: Vec<usize>,
}

impl View for SteinerInstance {
    type V = InstanceView;

    open spec fn view(&self) -> InstanceView {
        InstanceView {
            num_nodes: self.num_nodes,
            num_edges: self.num_edges,
            num_arcs: self.num_arcs,
            num_obstacles: self.num_obstacles,
            num_terminals: self.num_terminals,
            edges: self.edges@,
            arcs: self.arcs@,
            terminals: self.terminals@,
        }
    }
}

impl InstanceView {
    /// The view of an instance all of whose fields are empty or zero.
    pub open spec fn empty() -> InstanceView {
        InstanceView {
            num_nodes: 0,
            num_edges: 0,
            num_arcs: 0,
            num_obstacles: 0,
            num_terminals: 0,
            edges: Seq::<Edge>::empty(),
            arcs: Seq::<Edge>::empty(),
            terminals: Seq::<usize>::empty(),
        }
    }
}

impl SteinerInstance {
    /// Builds an instance over `num_nodes` vertices from concrete edge and
    /// terminal lists; the counts are derived from the list lengths.
    pub fn new(num_nodes: usize, edges: Vec<Edge>, terminals: Vec<usize>) -> (r: SteinerInstance)
        ensures
            r@ == (InstanceView {
                num_nodes,
                num_edges: edges@.len() as usize,
                num_terminals: terminals@.len() as usize,
                edges: edges@,
                terminals: terminals@,
                ..InstanceView::empty()
            }),
    {
        let num_edges = edges.len();
        let num_terminals = terminals.len();
        SteinerInstance {
            num_nodes,
            num_edges,
            num_arcs: 0,
            num_obstacles: 0,
            num_terminals,
            edges,
            arcs: Vec::new(),
            terminals,
        }
    }
}

impl Clone for SteinerInstance {
    fn clone(&self) -> (r: Self)
        ensures
            r@ == self@,
    {
        SteinerInstance {
            num_nodes: self.num_nodes,
            num_edges: self.num_edges,
            num_arcs: self.num_arcs,
            num_obstacles: self.num_obstacles,
            num_terminals: self.num_terminals,
            edges: clone_edges(&self.edges),
            arcs: clone_edges(&self.arcs),
            terminals: clone_vertices(&self.terminals),
        }
    }
}

impl Default for SteinerInstance {
    fn default() -> (r: Self)
        ensures
            r@ == InstanceView::empty(),
    {
        SteinerInstance {
            num_nodes: 0,
            num_edges: 0,
            num_arcs: 0,
            num_obstacles: 0,
            num_terminals: 0,
            edges: Vec::new(),
            arcs: Vec::new(),
            terminals: Vec::new(),
        }
    }
}

/// Copies a list of edges element by element.
pub fn clone_edges(v: &Vec<Edge>) -> (r: Vec<Edge>)
    ensures
        r@ == v@,
{
    let mut r: Vec<Edge> = Vec::new();
    let mut i: usize = 0;
    while i < v.len()
        invariant
            i <= v.len(),
            r@ == v@.take(i as int),
        decreases v.len() - i,
    {
        r.push(v[i]);
        proof {
            assert(v@.take(i + 1 as int) == v@.take(i as int).push(v@[i as int]));
        }
        i = i + 1;
    }
    proof {
        assert(v@.take(v@.len() as int) == v@);
    }
    r
}

/// Copies a list of vertex identifiers element by element.
pub fn clone_vertices(v: &Vec<usize>) -> (r: Vec<usize>)
    ensures
        r@ == v@,
{
    let mut r: Vec<usize> = Vec::new();
    let mut i: usize = 0;
    while i < v.len()
        invariant
            i <= v.len(),
            r@ == v@.take(i as int),
        decreases v.len() - i,
    {
        r.push(v[i]);
        proof {
            assert(v@.take(i + 1 as int) == v@.take(i as int).push(v@[i as int]));
        }
        i = i + 1;
    }
    proof {
        assert(v@.take(v@.len() as int) == v@);
    }
    r
}

/// The error kinds this library reports.
#[derive(Clone, Copy, PartialEq, Eq, Structural, Debug)]
pub enum SteinError {
    /// A line of a text artifact had an unrecognized tag or an unparseable field.
    MalformedLine,
    /// A query reference had no matching snapshot.
    MissingSnapshot,
    /// Every update category was given weight zero, or no positively weighted
    /// category had a legal target left.
    InvalidProbabilityWeights,
    /// A requested subset size exceeds the population it is drawn from.
    InvalidSubsetRequest,
    /// The sampler's rejection loop exhausted its attempt budget without
    /// producing a terminal-connected instance.
    GenerationTimeout,
}

} // verus!
