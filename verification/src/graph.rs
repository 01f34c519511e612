use vstd::prelude::*;

use crate::file::File;

verus! {

// ---------------------------------------------------------------------------
// Trusted declarations for the petgraph graph that stores the workspace.
//
// The graph value itself is opaque to the verifier. Its contents are
// reached only through the two uninterpreted names below, and every method
// the crate calls is wrapped in a function whose contract states, over
// those names, what petgraph's source shows the method does.
// ---------------------------------------------------------------------------

/// Declares petgraph's `Graph` type so values of it can stand in fields
/// and signatures.
#[verifier::external_type_specification]
#[verifier::external_body]
#[verifier::reject_recursive_types(N)]
#[verifier::reject_recursive_types(E)]
#[verifier::reject_recursive_types(Ty)]
#[verifier::reject_recursive_types(Ix)]
pub struct ExGraph<N, E, Ty, Ix>(petgraph::graph::Graph<N, E, Ty, Ix>);

/// Declares petgraph's `Undirected` edge-type marker.
#[verifier::external_type_specification]
#[verifier::external_body]
pub struct ExUndirected(petgraph::Undirected);

/// The node payloads of the graph, in node-index order (petgraph assigns
/// indices 0, 1, 2, ... in insertion order and this crate never removes).
pub uninterp spec fn graph_nodes(
    g: petgraph::graph::Graph<File, u32, petgraph::Undirected, u32>,
) -> Seq<File>;

/// The edges of the graph as endpoint index pairs, in edge-index order,
/// each pair as it was passed to `add_edge`.
pub uninterp spec fn graph_edges(
    g: petgraph::graph::Graph<File, u32, petgraph::Undirected, u32>,
) -> Seq<(usize, usize)>;

/// Relies on petgraph's `Graph::new_undirected`: a graph with no nodes
/// and no edges.
#[verifier::external_body]
fn pg_new() -> (g: petgraph::graph::Graph<File, u32, petgraph::Undirected, u32>)
    ensures
        graph_nodes(g) == Seq::<File>::empty(),
        graph_edges(g) == Seq::<(usize, usize)>::empty(),
{
    petgraph::graph::Graph::new_undirected()
}

/// Relies on petgraph's `Graph::add_node`: appends one node and returns
/// its fresh index, which equals the old node count. petgraph panics at
/// `u32::MAX` nodes, which the precondition rules out.
#[verifier::external_body]
fn pg_add_node(
    g: &mut petgraph::graph::Graph<File, u32, petgraph::Undirected, u32>,
    f: File,
) -> (i: usize)
    requires
        graph_nodes(*old(g)).len() < 0xFFFF_FFFF,
    ensures
        graph_nodes(*final(g)) == graph_nodes(*old(g)).push(f),
        graph_edges(*final(g)) == graph_edges(*old(g)),
        i == graph_nodes(*old(g)).len(),
{
    g.add_node(f).index()
}

/// Relies on petgraph's `Graph::add_edge`: appends one edge holding the
/// given endpoint pair, leaving the nodes unchanged. petgraph panics on
/// an endpoint that does not exist and at `u32::MAX` edges, which the
/// preconditions rule out.
#[verifier::external_body]
fn pg_add_edge(
    g: &mut petgraph::graph::Graph<File, u32, petgraph::Undirected, u32>,
    a: usize,
    b: usize,
    w: u32,
)
    requires
        graph_nodes(*old(g)).len() < 0x1_0000_0000,
        a < graph_nodes(*old(g)).len(),
        b < graph_nodes(*old(g)).len(),
        graph_edges(*old(g)).len() < 0xFFFF_FFFF,
    ensures
        graph_nodes(*final(g)) == graph_nodes(*old(g)),
        graph_edges(*final(g)) == graph_edges(*old(g)).push((a, b)),
{
    g.add_edge(
        petgraph::graph::NodeIndex::new(a),
        petgraph::graph::NodeIndex::new(b),
        w,
    );
}

/// Relies on petgraph's `Graph::node_count`: the number of nodes.
#[verifier::external_body]
fn pg_node_count(g: &petgraph::graph::Graph<File, u32, petgraph::Undirected, u32>) -> (n: usize)
    ensures
        n == graph_nodes(*g).len(),
{
    g.node_count()
}

/// Relies on petgraph's `Graph::edge_count`: the number of edges.
#[verifier::external_body]
fn pg_edge_count(g: &petgraph::graph::Graph<File, u32, petgraph::Undirected, u32>) -> (n: usize)
    ensures
        n == graph_edges(*g).len(),
{
    g.edge_count()
}

/// Relies on petgraph's `Graph::node_weights`, which yields the node
/// payloads in index order; each payload is cloned into the result.
#[verifier::external_body]
fn pg_node_list(g: &petgraph::graph::Graph<File, u32, petgraph::Undirected, u32>) -> (v: Vec<File>)
    ensures
        v@ == graph_nodes(*g),
{
    g.node_weights().cloned().collect()
}

/// Relies on petgraph's `Graph::raw_edges`, the internal edge array in
/// edge-index order; `Edge::source` and `Edge::target` are the endpoints
/// as they were added.
#[verifier::external_body]
fn pg_edge_list(
    g: &petgraph::graph::Graph<File, u32, petgraph::Undirected, u32>,
) -> (v: Vec<(usize, usize)>)
    ensures
        v@ == graph_edges(*g),
{
    g.raw_edges().iter().map(|e| (e.source().index(), e.target().index())).collect()
}

// ---------------------------------------------------------------------------
// The verified workspace graph.
// ---------------------------------------------------------------------------

/// Number of edge-sequence entries that touch node `i` in `edges[..upto]`,
/// a self-loop counting twice. This is the degree of `i` in the multigraph
/// restricted to the first `upto` edges.
pub open spec fn degree_upto(edges: Seq<(usize, usize)>, i: usize, upto: int) -> int
    decreases upto,
{
    if upto <= 0 {
        0
    } else {
        degree_upto(edges, i, upto - 1)
            + (if edges[upto - 1].0 == i { 1int } else { 0int })
            + (if edges[upto - 1].1 == i { 1int } else { 0int })
    }
}

/// The degree of node `i`: how many edge endpoints name it.
pub open spec fn spec_degree(edges: Seq<(usize, usize)>, i: usize) -> int {
    degree_upto(edges, i, edges.len() as int)
}

/// An undirected multigraph of workspace files. Nodes carry a `File` and
/// are addressed by the integer index petgraph assigned at insertion;
/// edges are endpoint pairs, one per import statement, duplicates allowed.
pub struct WorkspaceGraph {
    pub graph: petgraph::graph::Graph<File, u32, petgraph::Undirected, u32>,
}

impl WorkspaceGraph {
    /// The node payloads, in node-index order.
    pub open spec fn nodes(self) -> Seq<File> {
        graph_nodes(self.graph)
    }

    /// The edges as endpoint index pairs, in insertion order.
    pub open spec fn edges(self) -> Seq<(usize, usize)> {
        graph_edges(self.graph)
    }

    /// Well-formed: every edge endpoint is a node index, and the counts
    /// stay below petgraph's 32-bit index limit.
    pub open spec fn wf(self) -> bool {
        &&& self.nodes().len() <= 0xFFFF_FFFF
        &&& self.edges().len() <= 0xFFFF_FFFF
        &&& forall|e: int|
            0 <= e < self.edges().len() ==> (#[trigger] self.edges()[e]).0 < self.nodes().len()
                && self.edges()[e].1 < self.nodes().len()
    }

    pub fn new() -> (g: WorkspaceGraph)
        ensures
            g.wf(),
            g.nodes() == Seq::<File>::empty(),
            g.edges() == Seq::<(usize, usize)>::empty(),
    {
        WorkspaceGraph { graph: pg_new() }
    }

    /// Adds one node for `file` and returns its index.
    pub fn add_file(&mut self, file: File) -> (i: usize)
        requires
            old(self).wf(),
            old(self).nodes().len() < 0xFFFF_FFFF,
        ensures
            final(self).wf(),
            final(self).nodes() == old(self).nodes().push(file),
            final(self).edges() == old(self).edges(),
            i == old(self).nodes().len(),
    {
        pg_add_node(&mut self.graph, file)
    }

    /// Adds one undirected edge between the existing nodes `a` and `b`.
    /// Parallel edges and self-loops are allowed and kept.
    pub fn add_import(&mut self, a: usize, b: usize)
        requires
            old(self).wf(),
            a < old(self).nodes().len(),
            b < old(self).nodes().len(),
            old(self).edges().len() < 0xFFFF_FFFF,
        ensures
            final(self).wf(),
            final(self).nodes() == old(self).nodes(),
            final(self).edges() == old(self).edges().push((a, b)),
    {
        pg_add_edge(&mut self.graph, a, b, 1)
    }

    pub fn node_count(&self) -> (n: usize)
        ensures
            n == self.nodes().len(),
    {
        pg_node_count(&self.graph)
    }

    pub fn edge_count(&self) -> (n: usize)
        ensures
            n == self.edges().len(),
    {
        pg_edge_count(&self.graph)
    }

    /// All node payloads, cloned, in node-index order.
    pub fn files(&self) -> (v: Vec<File>)
        ensures
            v@ == self.nodes(),
    {
        pg_node_list(&self.graph)
    }

    /// All edges as endpoint index pairs, in insertion order.
    pub fn edge_list(&self) -> (v: Vec<(usize, usize)>)
        ensures
            v@ == self.edges(),
    {
        pg_edge_list(&self.graph)
    }

    /// The degree of node `i`: the number of edge endpoints equal to `i`,
    /// so a self-loop counts twice and parallel edges count separately.
    pub fn degree(&self, i: usize) -> (d: u64)
        requires
            self.wf(),
        ensures
            d == spec_degree(self.edges(), i),
    {
        let edges = self.edge_list();
        let mut d: u64 = 0;
        let mut e: usize = 0;
        while e < edges.len()
            invariant
                e <= edges.len(),
                edges@ == self.edges(),
                self.edges().len() <= 0xFFFF_FFFF,
                d == degree_upto(self.edges(), i, e as int),
                d <= 2 * e,
            decreases edges.len() - e,
        {
            let (a, b) = edges[e];
            if a == i {
                d = d + 1;
            }
            if b == i {
                d = d + 1;
            }
            e = e + 1;
        }
        d
    }
}

} // verus!
