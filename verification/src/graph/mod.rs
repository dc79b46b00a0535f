//! A directed graph of processors connected by edges.

use vstd::prelude::*;

use petgraph::stable_graph::StableGraph;
use petgraph::visit::DfsPostOrder;
use rustc_hash::{FxBuildHasher, FxHashSet};
use petgraph::graph::NodeIndex as PetNodeIndex;
use petgraph::graph::EdgeIndex as PetEdgeIndex;
use petgraph::visit::EdgeRef;

pub mod edge;
pub mod node;

use edge::Edge;
use node::{ProcessorCall, ProcessorNode};

use crate::builtins::control::Cond;
use crate::builtins::storage::Register;
use crate::builtins::util::{Cast, FloatCasts, Passthrough};
use crate::processor::{signature, Processor, ProcessorError};
use crate::signal::{Float, List, MidiMessage, SignalType};

verus! {

#[verifier::external_type_specification]
#[verifier::external_body]
#[verifier::reject_recursive_types(N)]
#[verifier::reject_recursive_types(E)]
#[verifier::reject_recursive_types(Ty)]
#[verifier::reject_recursive_types(Ix)]
pub struct ExStableGraph<N, E, Ty, Ix>(StableGraph<N, E, Ty, Ix>);

#[verifier::external_type_specification]
#[verifier::external_body]
pub struct ExDirected(petgraph::Directed);

#[verifier::external_type_specification]
#[verifier::external_body]
#[verifier::reject_recursive_types(Ix)]
pub struct ExPetNodeIndex<Ix>(PetNodeIndex<Ix>);

#[verifier::external_type_specification]
#[verifier::external_body]
pub struct ExFxBuildHasher(FxBuildHasher);

#[verifier::external_type_specification]
#[verifier::external_body]
pub struct ExIoError(std::io::Error);

#[verifier::external_type_specification]
#[verifier::external_body]
#[verifier::reject_recursive_types(N)]
#[verifier::reject_recursive_types(VM)]
pub struct ExDfsPostOrder<N, VM>(DfsPostOrder<N, VM>);

/// The type of graph indices.
pub type GraphIx = u32;

/// The type of the directed graph.
pub type DiGraph = StableGraph<ProcessorNode, Edge, petgraph::Directed, GraphIx>;

/// The state of a depth-first post-order traversal of the graph.
pub type Visitor = DfsPostOrder<PetNodeIndex<GraphIx>, FxHashSet<PetNodeIndex<GraphIx>>>;

/// The index of a node in the graph.
#[derive(Clone, Copy, Debug, PartialEq, Eq, Structural, Hash)]
pub struct NodeIndex {
    /// The position of the node.
    pub index: GraphIx,
}

impl NodeIndex {
    /// Creates a node index from its position.
    pub fn new(index: GraphIx) -> (r: NodeIndex)
        ensures
            r.index == index,
    {
        NodeIndex { index }
    }

    /// Returns the position of the node.
    pub fn index(&self) -> (r: usize)
        ensures
            r == self.index,
    {
        self.index as usize
    }
}

/// The direction of the edges at a node.
#[derive(Clone, Copy, Debug, PartialEq, Eq, Structural)]
pub enum Direction {
    /// The edges that leave the node.
    Outgoing,
    /// The edges that enter the node.
    Incoming,
}

/// The node slots of a graph, in index order: `true` where a node lives, `false` where a
/// removed node left a vacant slot.
pub uninterp spec fn digraph_nodes(g: DiGraph) -> Seq<bool>;

/// The edge slots of a graph, in index order: for a live edge its source node, target node,
/// source output and target input; `None` where a removed edge left a vacant slot.
pub uninterp spec fn digraph_edges(g: DiGraph) -> Seq<Option<(u32, u32, u32, u32)>>;

/// The node weights of a graph, by node index: one for each live node.
pub uninterp spec fn digraph_weights(g: DiGraph) -> Map<u32, ProcessorNode>;

/// Whether `n` is a live node of the slots.
pub open spec fn is_live(nodes: Seq<bool>, n: u32) -> bool {
    n < nodes.len() && nodes[n as int]
}

/// The model of an edge.
pub open spec fn edge_model(source: u32, target: u32, w: Edge) -> (u32, u32, u32, u32) {
    (source, target, w.source_output, w.target_input)
}

/// Whether the slot holds a live edge from `u` to `v`.
pub open spec fn slot_from_to(slot: Option<(u32, u32, u32, u32)>, u: u32, v: u32) -> bool {
    match slot {
        Some(t) => t.0 == u && t.1 == v,
        None => false,
    }
}

/// Whether the slot holds a live edge that enters (`Incoming`) or leaves (`Outgoing`) node `n`.
pub open spec fn slot_at(slot: Option<(u32, u32, u32, u32)>, n: u32, dir: Direction) -> bool {
    match slot {
        Some(t) => edge_at(t, n, dir),
        None => false,
    }
}

/// Whether the slot holds a live edge into input `ti` of node `t`.
pub open spec fn slot_at_input(slot: Option<(u32, u32, u32, u32)>, t: u32, ti: u32) -> bool {
    match slot {
        Some(x) => x.1 == t && x.3 == ti,
        None => false,
    }
}

/// Whether there is a live edge from `u` to `v`.
pub open spec fn has_edge(edges: Seq<Option<(u32, u32, u32, u32)>>, u: u32, v: u32) -> bool {
    exists|e: int| 0 <= e < edges.len() && slot_from_to(#[trigger] edges[e], u, v)
}

/// Whether `p` is a path of live edges.
pub open spec fn is_path(edges: Seq<Option<(u32, u32, u32, u32)>>, p: Seq<u32>) -> bool {
    &&& p.len() >= 1
    &&& forall|k: int| 0 <= k < p.len() - 1 ==> #[trigger] has_edge(edges, p[k], p[k + 1])
}

/// Whether `b` can be reached from `a` along live edges (every node reaches itself).
pub open spec fn reaches(edges: Seq<Option<(u32, u32, u32, u32)>>, a: u32, b: u32) -> bool {
    exists|p: Seq<u32>| #[trigger] is_path(edges, p) && p[0] == a && p.last() == b
}

/// Whether the edge `e` enters (`Incoming`) or leaves (`Outgoing`) node `n`.
pub open spec fn edge_at(e: (u32, u32, u32, u32), n: u32, dir: Direction) -> bool {
    match dir {
        Direction::Incoming => e.1 == n,
        Direction::Outgoing => e.0 == n,
    }
}

/// Whether no live edge enters (`Incoming`) or leaves (`Outgoing`) node `n`.
pub open spec fn is_external(edges: Seq<Option<(u32, u32, u32, u32)>>, n: u32, dir: Direction) -> bool {
    forall|e: int| 0 <= e < edges.len() ==> !slot_at(#[trigger] edges[e], n, dir)
}

/// Creates an empty graph (`StableGraph::default`).
#[verifier::external_body]
fn digraph_new() -> (g: DiGraph)
    ensures
        digraph_nodes(g) == Seq::<bool>::empty(),
        digraph_edges(g) == Seq::<Option<(u32, u32, u32, u32)>>::empty(),
        digraph_weights(g) =~= Map::empty(),
{
    StableGraph::default()
}

/// Adds a node (`StableGraph::add_node`): a vacant slot is reused if there is one, else
/// the node takes a new slot at the end. The node index space of `u32` ends at `u32::MAX`,
/// where the call panics.
#[verifier::external_body]
fn digraph_add_node(g: &mut DiGraph, weight: ProcessorNode) -> (r: NodeIndex)
    requires
        digraph_nodes(*old(g)).len() < u32::MAX,
    ensures
        ({
            let old_n = digraph_nodes(*old(g));
            let new_n = digraph_nodes(*final(g));
            ||| r.index == old_n.len() && new_n == old_n.push(true)
            ||| r.index < old_n.len() && !old_n[r.index as int] && new_n == old_n.update(r.index as int, true)
        }),
        (forall|i: int| 0 <= i < digraph_nodes(*old(g)).len() ==> #[trigger] digraph_nodes(*old(g))[i])
            ==> r.index == digraph_nodes(*old(g)).len(),
        digraph_edges(*final(g)) == digraph_edges(*old(g)),
        digraph_weights(*final(g)) == digraph_weights(*old(g)).insert(r.index, weight),
{
    NodeIndex { index: g.add_node(weight).index() as u32 }
}

/// Whether `a` and `b` reach each other.
pub open spec fn mutually_reachable(edges: Seq<Option<(u32, u32, u32, u32)>>, a: u32, b: u32) -> bool {
    reaches(edges, a, b) && reaches(edges, b, a)
}

/// Whether `comps` lists the strongly connected components of the graph: every live node
/// occurs exactly once, the nodes of one component reach each other, nodes of different
/// components do not, and a component comes before every component that has an edge into it.
pub open spec fn is_scc_list(nodes: Seq<bool>, edges: Seq<Option<(u32, u32, u32, u32)>>, comps: Seq<Seq<NodeIndex>>) -> bool {
    &&& forall|c: int| 0 <= c < comps.len() ==> #[trigger] comps[c].len() > 0
    &&& forall|c: int, k: int| 0 <= c < comps.len() && 0 <= k < comps[c].len()
            ==> is_live(nodes, #[trigger] comps[c][k].index)
    &&& forall|n: u32| #[trigger] is_live(nodes, n)
            ==> exists|c: int, k: int| 0 <= c < comps.len() && 0 <= k < comps[c].len() && #[trigger] comps[c][k].index == n
    &&& forall|c1: int, k1: int, c2: int, k2: int|
            0 <= c1 < comps.len() && 0 <= k1 < comps[c1].len() && 0 <= c2 < comps.len() && 0 <= k2 < comps[c2].len()
            && #[trigger] comps[c1][k1] == #[trigger] comps[c2][k2] ==> c1 == c2 && k1 == k2
    &&& forall|c1: int, k1: int, c2: int, k2: int|
            0 <= c1 < comps.len() && 0 <= k1 < comps[c1].len() && 0 <= c2 < comps.len() && 0 <= k2 < comps[c2].len()
            ==> (mutually_reachable(edges, #[trigger] comps[c1][k1].index, #[trigger] comps[c2][k2].index) <==> c1 == c2)
    &&& forall|c1: int, k1: int, c2: int, k2: int|
            0 <= c1 < comps.len() && 0 <= k1 < comps[c1].len() && 0 <= c2 < comps.len() && 0 <= k2 < comps[c2].len()
            && has_edge(edges, #[trigger] comps[c1][k1].index, #[trigger] comps[c2][k2].index) && c1 != c2 ==> c2 < c1
}

/// Whether some edge slot is vacant.
pub open spec fn has_vacant_slot(edges: Seq<Option<(u32, u32, u32, u32)>>) -> bool {
    exists|e: int| 0 <= e < edges.len() && #[trigger] edges[e] is None
}

/// The number of live edges among the slots.
pub open spec fn live_edges(edges: Seq<Option<(u32, u32, u32, u32)>>) -> nat
    decreases edges.len(),
{
    if edges.len() == 0 {
        0
    } else {
        live_edges(edges.drop_last()) + if edges.last() is Some { 1nat } else { 0nat }
    }
}

/// There are as many live edges as slots exactly when no slot is vacant.
pub proof fn lemma_live_edges(edges: Seq<Option<(u32, u32, u32, u32)>>)
    ensures
        live_edges(edges) <= edges.len(),
        (live_edges(edges) == edges.len()) == !has_vacant_slot(edges),
    decreases edges.len(),
{
    if edges.len() > 0 {
        let d = edges.drop_last();
        lemma_live_edges(d);
        if has_vacant_slot(d) {
            let e = choose|e: int| 0 <= e < d.len() && #[trigger] d[e] is None;
            assert(edges[e] is None);
        }
        if has_vacant_slot(edges) {
            let e = choose|e: int| 0 <= e < edges.len() && #[trigger] edges[e] is None;
            if e < d.len() {
                assert(d[e] is None);
            }
        }
    }
}

/// Filling a slot adds a live edge if it was vacant; emptying one removes it if it was live.
pub proof fn lemma_live_edges_update(edges: Seq<Option<(u32, u32, u32, u32)>>, i: int, x: Option<(u32, u32, u32, u32)>)
    requires
        0 <= i < edges.len(),
    ensures
        live_edges(edges.update(i, x)) + (if edges[i] is Some { 1int } else { 0int })
            == live_edges(edges) + (if x is Some { 1int } else { 0int }),
    decreases edges.len(),
{
    let u = edges.update(i, x);
    if i == edges.len() - 1 {
        assert(u.drop_last() =~= edges.drop_last());
    } else {
        lemma_live_edges_update(edges.drop_last(), i, x);
        assert(u.drop_last() =~= edges.drop_last().update(i, x));
    }
}

/// A pushed live edge adds one live edge.
pub proof fn lemma_live_edges_push(edges: Seq<Option<(u32, u32, u32, u32)>>, x: (u32, u32, u32, u32))
    ensures
        live_edges(edges.push(Some(x))) == live_edges(edges) + 1,
{
    assert(edges.push(Some(x)).drop_last() =~= edges);
}

/// The number of live edges (`StableGraph::edge_count`).
#[verifier::external_body]
fn digraph_edge_count(g: &DiGraph) -> (r: usize)
    ensures
        r == live_edges(digraph_edges(*g)),
{
    g.edge_count()
}

/// Adds an edge from `a` to `b` (`StableGraph::add_edge`): a vacant edge slot is reused if
/// there is one, else the edge takes a new slot at the end. The call panics when a node is
/// missing, or when no slot is vacant and the edge index space of `u32` is used up; a new
/// slot never takes index `EdgeIndex::end()` (`u32::MAX`), so there are at most `u32::MAX`
/// slots.
#[verifier::external_body]
fn digraph_add_edge(g: &mut DiGraph, a: NodeIndex, b: NodeIndex, weight: Edge) -> (r: u32)
    requires
        is_live(digraph_nodes(*old(g)), a.index),
        is_live(digraph_nodes(*old(g)), b.index),
        digraph_edges(*old(g)).len() < u32::MAX || has_vacant_slot(digraph_edges(*old(g))),
    ensures
        ({
            let old_e = digraph_edges(*old(g));
            let new_e = digraph_edges(*final(g));
            let m = edge_model(a.index, b.index, weight);
            ||| r == old_e.len() && new_e == old_e.push(Some(m))
            ||| r < old_e.len() && old_e[r as int] is None && new_e == old_e.update(r as int, Some(m))
        }),
        digraph_edges(*final(g)).len() <= u32::MAX,
        digraph_nodes(*final(g)) == digraph_nodes(*old(g)),
        digraph_weights(*final(g)) == digraph_weights(*old(g)),
{
    g.add_edge(PetNodeIndex::new(a.index as usize), PetNodeIndex::new(b.index as usize), weight).index() as u32
}

/// Removes the edge in slot `e` (`StableGraph::remove_edge`) and returns its weight, or
/// returns `None` and changes nothing when the slot holds no live edge.
#[verifier::external_body]
fn digraph_remove_edge(g: &mut DiGraph, e: u32) -> (r: Option<Edge>)
    ensures
        digraph_nodes(*final(g)) == digraph_nodes(*old(g)),
        digraph_weights(*final(g)) == digraph_weights(*old(g)),
        ({
            let old_e = digraph_edges(*old(g));
            if e < old_e.len() && old_e[e as int] is Some {
                let t = old_e[e as int]->0;
                &&& r is Some
                &&& t == edge_model(t.0, t.1, r->0)
                &&& digraph_edges(*final(g)) == old_e.update(e as int, None)
            } else {
                &&& r is None
                &&& digraph_edges(*final(g)) == old_e
            }
        }),
{
    g.remove_edge(PetEdgeIndex::new(e as usize))
}

/// Lists the live edges that enter (`Incoming`) or leave (`Outgoing`) node `a`
/// (`StableGraph::edges_directed`), each as its slot, source, target, source output and
/// target input. The order (most recently added first) is not stated.
#[verifier::external_body]
fn digraph_edges_directed(g: &DiGraph, a: NodeIndex, dir: Direction) -> (r: Vec<(u32, u32, u32, u32, u32)>)
    ensures
        forall|i: int| 0 <= i < r@.len() ==> {
            let x = #[trigger] r@[i];
            &&& x.0 < digraph_edges(*g).len()
            &&& digraph_edges(*g)[x.0 as int] == Some((x.1, x.2, x.3, x.4))
            &&& edge_at((x.1, x.2, x.3, x.4), a.index, dir)
        },
        forall|i: int, j: int| 0 <= i < j < r@.len() ==> r@[i].0 != r@[j].0,
        is_live(digraph_nodes(*g), a.index) ==> forall|e: int|
            0 <= e < digraph_edges(*g).len() && slot_at(#[trigger] digraph_edges(*g)[e], a.index, dir)
            ==> exists|i: int| 0 <= i < r@.len() && r@[i].0 == e,
{
    let d = match dir {
        Direction::Incoming => petgraph::Direction::Incoming,
        Direction::Outgoing => petgraph::Direction::Outgoing,
    };
    g.edges_directed(PetNodeIndex::new(a.index as usize), d)
        .map(|e| (e.id().index() as u32, e.source().index() as u32, e.target().index() as u32,
            e.weight().source_output, e.weight().target_input))
        .collect()
}

/// Lists, in increasing index order, the live nodes without entering (`Incoming`) or
/// leaving (`Outgoing`) edges (`StableGraph::externals`).
#[verifier::external_body]
fn digraph_externals(g: &DiGraph, dir: Direction) -> (r: Vec<NodeIndex>)
    ensures
        forall|i: int| 0 <= i < r@.len() ==> is_live(digraph_nodes(*g), #[trigger] r@[i].index)
            && is_external(digraph_edges(*g), r@[i].index, dir),
        forall|i: int, j: int| 0 <= i < j < r@.len() ==> r@[i].index < r@[j].index,
        forall|n: u32| is_live(digraph_nodes(*g), n) && #[trigger] is_external(digraph_edges(*g), n, dir)
            ==> exists|i: int| 0 <= i < r@.len() && r@[i].index == n,
{
    let d = match dir {
        Direction::Incoming => petgraph::Direction::Incoming,
        Direction::Outgoing => petgraph::Direction::Outgoing,
    };
    g.externals(d).map(|n| NodeIndex { index: n.index() as u32 }).collect()
}

/// The strongly connected components of the graph (`petgraph::algo::tarjan_scc`), in
/// reverse topological order.
#[verifier::external_body]
fn digraph_tarjan_scc(g: &DiGraph) -> (r: Vec<Vec<NodeIndex>>)
    ensures
        is_scc_list(digraph_nodes(*g), digraph_edges(*g), r@.map_values(|c: Vec<NodeIndex>| c@)),
{
    petgraph::algo::tarjan_scc(g)
        .into_iter()
        .map(|c| c.into_iter().map(|n| NodeIndex { index: n.index() as u32 }).collect())
        .collect()
}

/// Gives mutable access to the weight of live node `a` (`IndexMut` of `StableGraph`, which
/// panics on a node that is not live): the weight held for `a`, and what is written through
/// the reference is what the graph then holds for `a`; nodes, edges and the other weights
/// stay as they are.
#[verifier::external_body]
fn digraph_index_mut(g: &mut DiGraph, a: NodeIndex) -> (r: &mut ProcessorNode)
    requires
        is_live(digraph_nodes(*old(g)), a.index),
    ensures
        digraph_weights(*old(g)).dom().contains(a.index),
        *r == digraph_weights(*old(g))[a.index],
        digraph_weights(*final(g)) == digraph_weights(*old(g)).insert(a.index, *final(r)),
        digraph_nodes(*final(g)) == digraph_nodes(*old(g)),
        digraph_edges(*final(g)) == digraph_edges(*old(g)),
{
    &mut g[PetNodeIndex::new(a.index as usize)]
}

/// The number of live nodes (`StableGraph::node_count`): the number of slots when every slot
/// holds a node. Node indices are `u32`, so it is at most `u32::MAX`.
#[verifier::external_body]
fn digraph_node_count(g: &DiGraph) -> (r: usize)
    ensures
        r <= digraph_nodes(*g).len(),
        r <= u32::MAX,
        (forall|i: int| 0 <= i < digraph_nodes(*g).len() ==> #[trigger] digraph_nodes(*g)[i]) ==> r == digraph_nodes(*g).len(),
{
    g.node_count()
}

/// A traversal state with nothing discovered, finished or to visit (`DfsPostOrder::default`).
#[verifier::external_body]
fn visitor_new() -> (v: Visitor) {
    DfsPostOrder::default()
}

/// Runs a depth-first post-order traversal of `g` (`DfsPostOrder::next` until it gives
/// `None`) after clearing the traversal state in `v` and putting `roots` on its stack in
/// order, and lists the nodes in the order the traversal emits them. Every node is emitted
/// once, after its descendants: when a node is emitted, each of its successors was emitted
/// before it or reaches it (an edge back into the depth-first path, which only a cycle
/// gives). The emitted nodes are the nodes reachable from the roots: every root is emitted,
/// and so is every successor of an emitted node.
#[verifier::external_body]
fn digraph_dfs_post_order(v: &mut Visitor, g: &DiGraph, roots: &Vec<NodeIndex>) -> (r: Vec<NodeIndex>)
    requires
        forall|i: int| 0 <= i < roots@.len() ==> is_live(digraph_nodes(*g), #[trigger] roots@[i].index),
    ensures
        r@.no_duplicates(),
        forall|i: int| 0 <= i < r@.len() ==> is_live(digraph_nodes(*g), #[trigger] r@[i].index),
        forall|i: int| 0 <= i < roots@.len() ==> r@.contains(#[trigger] roots@[i]),
        forall|j: int, x: u32| 0 <= j < r@.len() && #[trigger] has_edge(digraph_edges(*g), r@[j].index, x)
            ==> (exists|i: int| 0 <= i < j && r@[i].index == x) || reaches(digraph_edges(*g), x, r@[j].index),
        forall|j: int, x: u32| 0 <= j < r@.len() && #[trigger] has_edge(digraph_edges(*g), r@[j].index, x)
            ==> r@.contains(NodeIndex { index: x }),
{
    v.discovered.clear();
    v.finished.clear();
    v.stack.clear();
    v.stack.extend(roots.iter().map(|n| PetNodeIndex::new(n.index as usize)));
    std::iter::from_fn(|| v.next(g)).map(|n| NodeIndex { index: n.index() as u32 }).collect()
}

/// The type of error that occurred while running a graph.
#[derive(Debug)]
#[non_exhaustive]
pub enum GraphRunErrorType {
    /// An error occurred while processing the node.
    ProcessorError(ProcessorError),
}

/// An error that occurred while running a graph.
#[derive(Debug)]
pub struct GraphRunError {
    /// The index of the node where the error occurred.
    pub node_index: NodeIndex,
    /// The name of the processor of the node where the error occurred.
    pub node_processor: String,
    /// The type of error that occurred.
    pub type_: GraphRunErrorType,
}

/// An error that occurred while constructing a graph.
#[derive(Debug)]
#[non_exhaustive]
pub enum GraphConstructionError {
    /// Attempted to connect nodes from different graphs.
    MismatchedGraphs,
    /// Attempted to perform an invalid operation on a node with multiple outputs.
    NodeHasMultipleOutputs {
        /// The operation that was attempted.
        op: String,
        /// The type of the node.
        type_: String,
    },
    /// Filesystem error.
    FilesystemError(std::io::Error),
}

impl GraphRunErrorType {
    /// Wraps a processor error.
    pub fn from_processor_error(e: ProcessorError) -> (r: GraphRunErrorType)
        ensures
            r == GraphRunErrorType::ProcessorError(e),
    {
        GraphRunErrorType::ProcessorError(e)
    }
}

/// The set of live edges of the edge slots.
pub open spec fn edge_set(edges: Seq<Option<(u32, u32, u32, u32)>>) -> Set<(u32, u32, u32, u32)> {
    Set::new(|t: (u32, u32, u32, u32)| exists|e: int| 0 <= e < edges.len() && edges[e] == Some(t))
}

/// The edge set after connecting output `so` of `s` to input `ti` of `t`: any edge into that
/// input is replaced by the new one.
pub open spec fn connect_result(set: Set<(u32, u32, u32, u32)>, s: u32, so: u32, t: u32, ti: u32) -> Set<(u32, u32, u32, u32)> {
    set.filter(|x: (u32, u32, u32, u32)| !(x.1 == t && x.3 == ti)).insert((s, t, so, ti))
}

/// Whether no two live edges enter the same input of the same node.
pub open spec fn inputs_unique(edges: Seq<Option<(u32, u32, u32, u32)>>) -> bool {
    forall|e1: int, e2: int| 0 <= e1 < edges.len() && 0 <= e2 < edges.len() && e1 != e2
        && #[trigger] edges[e1] is Some && #[trigger] edges[e2] is Some
        ==> ({
            let (x, y) = (edges[e1]->0, edges[e2]->0);
            !(x.1 == y.1 && x.3 == y.3)
        })
}

/// Whether every live edge connects nodes below `n`.
pub open spec fn edges_within(edges: Seq<Option<(u32, u32, u32, u32)>>, n: nat) -> bool {
    forall|e: int| 0 <= e < edges.len() && #[trigger] edges[e] is Some
        ==> ({
            let x = edges[e]->0;
            x.0 < n && x.1 < n
        })
}

/// Whether every index of `v` is below `n`.
pub open spec fn indices_within(v: Seq<NodeIndex>, n: nat) -> bool {
    forall|i: int| 0 <= i < v.len() ==> (#[trigger] v[i]).index < n
}

/// A directed graph of [`Processor`]s connected by [`Edge`]s.
pub struct Graph {
    digraph: DiGraph,
    params: Vec<(String, NodeIndex)>,
    midi_params: Vec<NodeIndex>,
    input_nodes: Vec<NodeIndex>,
    output_nodes: Vec<NodeIndex>,
    needs_visitor_alloc: bool,
    visitor: Visitor,
    visit_path: Vec<NodeIndex>,
    sccs: Vec<Vec<NodeIndex>>,
}

impl Graph {
    /// The node slots of the graph.
    pub closed spec fn nodes(&self) -> Seq<bool> {
        digraph_nodes(self.digraph)
    }

    /// The edge slots of the graph.
    pub closed spec fn edges(&self) -> Seq<Option<(u32, u32, u32, u32)>> {
        digraph_edges(self.digraph)
    }

    /// The number of nodes of the graph.
    pub open spec fn node_count(&self) -> nat {
        self.nodes().len()
    }

    /// The live edges of the graph, each as source, target, source output and target input.
    pub open spec fn edge_set(&self) -> Set<(u32, u32, u32, u32)> {
        edge_set(self.edges())
    }

    /// Whether `n` is a node of the graph.
    pub open spec fn has_node(&self, n: NodeIndex) -> bool {
        n.index < self.node_count()
    }

    /// The processor nodes of the graph, by node index.
    pub closed spec fn node_weights(&self) -> Map<u32, ProcessorNode> {
        digraph_weights(self.digraph)
    }

    /// The calls the node at index `n` has handed on to its processor (none where no node is).
    pub open spec fn node_calls(&self, n: u32) -> Seq<ProcessorCall> {
        if self.node_weights().dom().contains(n) { self.node_weights()[n].calls() } else { Seq::empty() }
    }

    /// The names of the parameters, in the order they were first added.
    pub closed spec fn param_names(&self) -> Seq<Seq<char>> {
        self.params@.map_values(|p: (String, NodeIndex)| p.0@)
    }

    /// The node of the parameter called `name`, if there is one.
    pub closed spec fn param_of(&self, name: Seq<char>) -> Option<NodeIndex> {
        if exists|i: int| 0 <= i < self.params@.len() && #[trigger] self.params@[i].0@ == name {
            Some(self.params@[choose|i: int| 0 <= i < self.params@.len() && #[trigger] self.params@[i].0@ == name].1)
        } else {
            None
        }
    }

    /// The nodes of the MIDI inputs.
    pub closed spec fn midi_param_nodes(&self) -> Seq<NodeIndex> {
        self.midi_params@
    }

    /// The audio input nodes.
    pub closed spec fn input_nodes(&self) -> Seq<NodeIndex> {
        self.input_nodes@
    }

    /// The audio output nodes.
    pub closed spec fn output_nodes(&self) -> Seq<NodeIndex> {
        self.output_nodes@
    }

    /// Whether the cached traversal must be recomputed before visiting.
    pub closed spec fn needs_alloc(&self) -> bool {
        self.needs_visitor_alloc
    }

    /// The cached order in which the nodes are visited.
    pub closed spec fn visit_order(&self) -> Seq<NodeIndex> {
        self.visit_path@
    }

    /// The cached strongly connected components, in topological order.
    pub closed spec fn scc_list(&self) -> Seq<Seq<NodeIndex>> {
        self.sccs@.map_values(|c: Vec<NodeIndex>| c@)
    }

    /// Whether the cached components are those of the graph as it is.
    pub open spec fn sccs_current(&self) -> bool {
        is_scc_list(self.nodes(), self.edges(), self.scc_list().reverse())
    }

    /// The graph's invariant: no node was removed, edges join nodes of the graph, no input
    /// has two edges, parameter names are distinct, and every cached index is a node.
    /// The visit order holds exactly the nodes of the graph; for an acyclic graph it is
    /// topological: for each edge, its source comes before its target.
    pub open spec fn visits_in_order(&self) -> bool {
        &&& forall|n: u32| #[trigger] is_live(self.nodes(), n) <==> self.visit_order().contains(NodeIndex { index: n })
        &&& is_acyclic(self.edges()) ==> forall|i: int, j: int| 0 <= i < self.visit_order().len() && 0 <= j < self.visit_order().len()
                && #[trigger] has_edge(self.edges(), self.visit_order()[i].index, self.visit_order()[j].index) ==> i < j
    }

    pub open spec fn wf(&self) -> bool {
        &&& forall|i: int| 0 <= i < self.nodes().len() ==> #[trigger] self.nodes()[i]
        &&& edges_within(self.edges(), self.node_count())
        &&& self.edges().len() <= u32::MAX
        &&& inputs_unique(self.edges())
        &&& self.params_wf()
        &&& indices_within(self.midi_param_nodes(), self.node_count())
        &&& indices_within(self.input_nodes(), self.node_count())
        &&& indices_within(self.output_nodes(), self.node_count())
        &&& indices_within(self.visit_order(), self.node_count())
        &&& self.visit_order().no_duplicates()
    }

    /// Parameter names are distinct and name nodes of the graph.
    pub closed spec fn params_wf(&self) -> bool {
        &&& forall|i: int, j: int| 0 <= i < j < self.params@.len() ==> (#[trigger] self.params@[i]).0@ != (#[trigger] self.params@[j]).0@
        &&& forall|i: int| 0 <= i < self.params@.len() ==> (#[trigger] self.params@[i]).1.index < self.node_count()
    }

    /// Creates a new, empty graph.
    pub fn new() -> (r: Graph)
        ensures
            r.wf(),
            r.node_count() == 0,
            r.edge_set() == Set::<(u32, u32, u32, u32)>::empty(),
            r.param_names().len() == 0,
            forall|name: Seq<char>| r.param_of(name) is None,
            r.input_nodes().len() == 0,
            r.output_nodes().len() == 0,
            r.midi_param_nodes().len() == 0,
            !r.needs_alloc(),
    {
        let g = Graph {
            digraph: digraph_new(),
            params: Vec::new(),
            midi_params: Vec::new(),
            input_nodes: Vec::new(),
            output_nodes: Vec::new(),
            needs_visitor_alloc: false,
            visitor: visitor_new(),
            visit_path: Vec::new(),
            sccs: Vec::new(),
        };
        proof {
            assert(g.edge_set() =~= Set::<(u32, u32, u32, u32)>::empty());
        }
        g
    }

    /// Returns a reference to the underlying [`DiGraph`].
    pub fn digraph(&self) -> (r: &DiGraph)
        ensures
            digraph_nodes(*r) == self.nodes(),
            digraph_edges(*r) == self.edges(),
    {
        &self.digraph
    }

    /// Returns `true` if the graph needs to allocate its visitor (call [`Graph::allocate_visitor()`]).
    pub fn needs_visitor_alloc(&self) -> (r: bool)
        ensures
            r == self.needs_alloc(),
    {
        self.needs_visitor_alloc
    }

    /// Adds a node to the graph; the shared part of every way to add one.
    fn add_node(&mut self, node: ProcessorNode) -> (r: NodeIndex)
        requires
            old(self).wf(),
            old(self).node_count() < u32::MAX,
        ensures
            final(self).wf(),
            r.index == old(self).node_count(),
            final(self).nodes() == old(self).nodes().push(true),
            final(self).edges() == old(self).edges(),
            final(self).param_names() == old(self).param_names(),
            forall|name: Seq<char>| #[trigger] final(self).param_of(name) == old(self).param_of(name),
            final(self).midi_param_nodes() == old(self).midi_param_nodes(),
            final(self).input_nodes() == old(self).input_nodes(),
            final(self).output_nodes() == old(self).output_nodes(),
            final(self).needs_alloc() == old(self).needs_alloc(),
            final(self).visit_order() == old(self).visit_order(),
            final(self).scc_list() == old(self).scc_list(),
            final(self).params@ == old(self).params@,
            final(self).node_weights() == old(self).node_weights().insert(r.index, node),
    {
        let r = digraph_add_node(&mut self.digraph, node);
        proof {
            let n = old(self).node_count();
            assert forall|i: int| 0 <= i < self.nodes().len() implies #[trigger] self.nodes()[i] by {
                if i < n {
                    assert(old(self).nodes()[i]);
                }
            }
            assert forall|name: Seq<char>| #[trigger] self.param_of(name) == old(self).param_of(name) by {
                assert(self.params@ == old(self).params@);
            }
        }
        r
    }

    /// Adds an audio input node to the graph.
    pub fn add_audio_input(&mut self) -> (r: NodeIndex)
        requires
            old(self).wf(),
            old(self).node_count() < u32::MAX,
        ensures
            final(self).wf(),
            r.index == old(self).node_count(),
            final(self).nodes() == old(self).nodes().push(true),
            final(self).edges() == old(self).edges(),
            final(self).input_nodes() == old(self).input_nodes().push(r),
            final(self).output_nodes() == old(self).output_nodes(),
            final(self).needs_alloc() == old(self).needs_alloc(),
    {
        let idx = self.add_node(ProcessorNode::new(Passthrough::new(SignalType::Float)));
        self.input_nodes.push(idx);
        idx
    }

    /// Adds an audio output node to the graph.
    pub fn add_audio_output(&mut self) -> (r: NodeIndex)
        requires
            old(self).wf(),
            old(self).node_count() < u32::MAX,
        ensures
            final(self).wf(),
            r.index == old(self).node_count(),
            final(self).nodes() == old(self).nodes().push(true),
            final(self).edges() == old(self).edges(),
            final(self).output_nodes() == old(self).output_nodes().push(r),
            final(self).input_nodes() == old(self).input_nodes(),
            final(self).needs_alloc() == old(self).needs_alloc(),
    {
        let idx = self.add_node(ProcessorNode::new(Passthrough::new(SignalType::Float)));
        self.output_nodes.push(idx);
        idx
    }

    /// Adds a processor node to the graph.
    pub fn add_processor<P: Processor + 'static>(&mut self, processor: P) -> (r: NodeIndex)
        requires
            old(self).wf(),
            old(self).node_count() < u32::MAX,
        ensures
            final(self).wf(),
            r.index == old(self).node_count(),
            final(self).nodes() == old(self).nodes().push(true),
            final(self).edges() == old(self).edges(),
            forall|name: Seq<char>| #[trigger] final(self).param_of(name) == old(self).param_of(name),
            final(self).param_names() == old(self).param_names(),
            final(self).midi_param_nodes() == old(self).midi_param_nodes(),
            final(self).input_nodes() == old(self).input_nodes(),
            final(self).output_nodes() == old(self).output_nodes(),
            final(self).needs_alloc(),
            final(self).node_weights().dom() == old(self).node_weights().dom().insert(r.index),
            forall|m: u32| m != r.index ==> #[trigger] final(self).node_weights()[m] == old(self).node_weights()[m],
            processor.inputs_spec() matches Some(sp) ==> signature(final(self).node_weights()[r.index].input_specs()) == sp,
            processor.outputs_spec() matches Some(sp) ==> signature(final(self).node_weights()[r.index].output_specs()) == sp,
            processor.name_spec() matches Some(nm) ==> final(self).node_weights()[r.index].name_spec() == nm,
    {
        self.needs_visitor_alloc = true;
        self.add_node(ProcessorNode::new(processor))
    }
}

impl Graph {
    /// The position of the parameter called `name` in the parameter list.
    fn find_param(&self, name: &str) -> (r: Option<usize>)
        ensures
            r matches Some(i) ==> i < self.params@.len() && self.params@[i as int].0@ == name@,
            r is None ==> forall|i: int| 0 <= i < self.params@.len() ==> (#[trigger] self.params@[i]).0@ != name@,
    {
        let key: String = name.to_owned();
        let mut i: usize = 0;
        while i < self.params.len()
            invariant
                i <= self.params@.len(),
                key@ == name@,
                forall|j: int| 0 <= j < i ==> (#[trigger] self.params@[j]).0@ != name@,
            decreases self.params@.len() - i,
        {
            if self.params[i].0 == key {
                return Some(i);
            }
            i += 1;
        }
        None
    }

    /// Adds a parameter node to the graph, registered under `name`; a parameter already
    /// registered under that name is replaced.
    pub fn add_param<P: Processor + 'static>(&mut self, name: String, param: P) -> (r: NodeIndex)
        requires
            old(self).wf(),
            old(self).node_count() < u32::MAX,
        ensures
            final(self).wf(),
            r.index == old(self).node_count(),
            final(self).nodes() == old(self).nodes().push(true),
            final(self).edges() == old(self).edges(),
            final(self).param_of(name@) == Some(r),
            forall|k: Seq<char>| k != name@ ==> #[trigger] final(self).param_of(k) == old(self).param_of(k),
            final(self).param_names() == (if old(self).param_of(name@) is Some { old(self).param_names() } else { old(self).param_names().push(name@) }),
            final(self).midi_param_nodes() == old(self).midi_param_nodes(),
            final(self).input_nodes() == old(self).input_nodes(),
            final(self).output_nodes() == old(self).output_nodes(),
            final(self).needs_alloc(),
    {
        self.needs_visitor_alloc = true;
        let index = self.add_node(ProcessorNode::new(param));
        let ghost mid = self.params@;
        match self.find_param(name.as_str()) {
            Some(i) => {
                self.params.set(i, (name, index));
                proof {
                    assert(mid == old(self).params@);
                    assert(old(self).param_of(name@) is Some) by {
                        assert(old(self).params@[i as int].0@ == name@);
                    }
                    assert(self.param_names() =~= old(self).param_names()) by {
                        assert(mid == old(self).params@);
                    }
                    assert forall|k: Seq<char>| #[trigger] self.param_of(k) == (if k == name@ { Some(index) } else { old(self).param_of(k) }) by {
                        assert(mid == old(self).params@);
                        if k == name@ {
                            assert(self.params@[i as int].0@ == k);
                            let c = choose|j: int| 0 <= j < self.params@.len() && #[trigger] self.params@[j].0@ == k;
                            if c != i {
                                assert(mid[c].0@ == k);
                                assert(mid[i as int].0@ == k);
                                assert(old(self).params@[c].0@ == old(self).params@[i as int].0@);
                                if c < i {
                                    assert(old(self).params@[c].0@ != old(self).params@[i as int].0@);
                                } else {
                                    assert(old(self).params@[i as int].0@ != old(self).params@[c].0@);
                                }
                            }
                        } else {
                            assert forall|j: int| 0 <= j < self.params@.len() implies
                                (#[trigger] self.params@[j].0@ == k) == (old(self).params@[j].0@ == k) by {
                                if j == i {
                                    assert(old(self).params@[j].0@ == name@);
                                }
                            }
                            if exists|j: int| 0 <= j < self.params@.len() && #[trigger] self.params@[j].0@ == k {
                                let c = choose|j: int| 0 <= j < self.params@.len() && #[trigger] self.params@[j].0@ == k;
                                let d = choose|j: int| 0 <= j < old(self).params@.len() && #[trigger] old(self).params@[j].0@ == k;
                                assert(old(self).params@[c].0@ == k);
                                if c != d {
                                    if c < d {
                                        assert(old(self).params@[c].0@ != old(self).params@[d].0@);
                                    } else {
                                        assert(old(self).params@[d].0@ != old(self).params@[c].0@);
                                    }
                                }
                                assert(c != i);
                            } else {
                                assert(!(exists|j: int| 0 <= j < old(self).params@.len() && #[trigger] old(self).params@[j].0@ == k)) by {
                                    if exists|j: int| 0 <= j < old(self).params@.len() && #[trigger] old(self).params@[j].0@ == k {
                                        let d = choose|j: int| 0 <= j < old(self).params@.len() && #[trigger] old(self).params@[j].0@ == k;
                                        assert(self.params@[d].0@ == k);
                                    }
                                }
                            }
                        }
                    }
                }
            },
            None => {
                self.params.push((name, index));
                proof {
                    assert(mid == old(self).params@);
                    assert(old(self).param_of(name@) is None);
                    assert(self.param_names() =~= old(self).param_names().push(name@));
                    let n = mid.len() as int;
                    assert forall|k: Seq<char>| #[trigger] self.param_of(k) == (if k == name@ { Some(index) } else { old(self).param_of(k) }) by {
                        if k == name@ {
                            assert(self.params@[n].0@ == k);
                            let c = choose|j: int| 0 <= j < self.params@.len() && #[trigger] self.params@[j].0@ == k;
                            if c != n {
                                assert(mid[c].0@ == k);
                            }
                        } else {
                            if exists|j: int| 0 <= j < self.params@.len() && #[trigger] self.params@[j].0@ == k {
                                let c = choose|j: int| 0 <= j < self.params@.len() && #[trigger] self.params@[j].0@ == k;
                                assert(c != n);
                                assert(old(self).params@[c].0@ == k);
                                let d = choose|j: int| 0 <= j < old(self).params@.len() && #[trigger] old(self).params@[j].0@ == k;
                                if c != d {
                                    if c < d {
                                        assert(old(self).params@[c].0@ != old(self).params@[d].0@);
                                    } else {
                                        assert(old(self).params@[d].0@ != old(self).params@[c].0@);
                                    }
                                }
                            } else {
                                assert(!(exists|j: int| 0 <= j < old(self).params@.len() && #[trigger] old(self).params@[j].0@ == k)) by {
                                    if exists|j: int| 0 <= j < old(self).params@.len() && #[trigger] old(self).params@[j].0@ == k {
                                        let d = choose|j: int| 0 <= j < old(self).params@.len() && #[trigger] old(self).params@[j].0@ == k;
                                        assert(self.params@[d].0@ == k);
                                    }
                                }
                            }
                        }
                    }
                    assert forall|i: int, j: int| 0 <= i < j < self.params@.len() implies (#[trigger] self.params@[i]).0@ != (#[trigger] self.params@[j]).0@ by {
                        if j == n {
                            assert(mid[i].0@ != name@);
                        }
                    }
                }
            },
        }
        index
    }

    /// Adds a MIDI input node to the graph, registered as a parameter called `name`.
    pub fn add_midi_input<P: Processor + 'static>(&mut self, name: String, param: P) -> (r: NodeIndex)
        requires
            old(self).wf(),
            old(self).node_count() < u32::MAX,
        ensures
            final(self).wf(),
            r.index == old(self).node_count(),
            final(self).nodes() == old(self).nodes().push(true),
            final(self).edges() == old(self).edges(),
            final(self).param_of(name@) == Some(r),
            forall|k: Seq<char>| k != name@ ==> #[trigger] final(self).param_of(k) == old(self).param_of(k),
            final(self).midi_param_nodes() == old(self).midi_param_nodes().push(r),
            final(self).input_nodes() == old(self).input_nodes(),
            final(self).output_nodes() == old(self).output_nodes(),
            final(self).needs_alloc(),
    {
        let ghost key = name@;
        let index = self.add_param(name, param);
        let ghost mid = *self;
        self.midi_params.push(index);
        proof {
            assert forall|k: Seq<char>| #[trigger] self.param_of(k) == mid.param_of(k) by {
                assert(self.params@ == mid.params@);
            }
        }
        index
    }

    /// Returns the number of audio inputs in the graph.
    pub fn num_audio_inputs(&self) -> (r: usize)
        ensures
            r == self.input_nodes().len(),
    {
        self.input_nodes.len()
    }

    /// Returns the number of audio outputs in the graph.
    pub fn num_audio_outputs(&self) -> (r: usize)
        ensures
            r == self.output_nodes().len(),
    {
        self.output_nodes.len()
    }

    /// Returns the number of nodes in the graph.
    pub fn num_nodes(&self) -> (r: usize)
        requires
            self.wf(),
        ensures
            r == self.node_count(),
    {
        digraph_node_count(&self.digraph)
    }

    /// Returns the number of edges in the graph.
    pub fn num_edges(&self) -> (r: usize)
        ensures
            r == live_edges(self.edges()),
    {
        digraph_edge_count(&self.digraph)
    }

    /// Returns `true` if an edge can still be added without replacing one: fewer than
    /// `u32::MAX` edge slots are in use, or a slot is vacant.
    pub fn has_edge_room(&self) -> (r: bool)
        requires
            self.wf(),
        ensures
            r == (self.edges().len() < u32::MAX || has_vacant_slot(self.edges())),
    {
        let c = digraph_edge_count(&self.digraph);
        proof { lemma_live_edges(self.edges()); }
        c < u32::MAX as usize
    }

    /// Returns `true` if [`Graph::connect`] into input `target_input` of `target` finds an
    /// edge slot (see [`connect_has_room`]).
    #[verifier::loop_isolation(false)]
    pub fn can_connect(&self, target: NodeIndex, target_input: u32) -> (r: bool)
        requires
            self.wf(),
        ensures
            r == connect_has_room(self.edges(), target.index, target_input),
    {
        if self.has_edge_room() {
            return true;
        }
        let incoming = digraph_edges_directed(&self.digraph, target, Direction::Incoming);
        let mut i: usize = 0;
        while i < incoming.len()
            invariant
                i <= incoming@.len(),
                forall|j: int| 0 <= j < i ==> (#[trigger] incoming@[j]).4 != target_input,
            decreases incoming@.len() - i,
        {
            if incoming[i].4 == target_input {
                proof {
                    let x = incoming@[i as int];
                    assert(slot_at_input(self.edges()[x.0 as int], target.index, target_input));
                }
                return true;
            }
            i += 1;
        }
        proof {
            if exists|e: int| 0 <= e < self.edges().len() && #[trigger] slot_at_input(self.edges()[e], target.index, target_input) {
                let e = choose|e: int| 0 <= e < self.edges().len() && #[trigger] slot_at_input(self.edges()[e], target.index, target_input);
                assert(slot_at(self.edges()[e], target.index, Direction::Incoming));
                assert(self.edges()[e] is Some);
                assert(target.index < self.node_count());
                assert(self.nodes()[target.index as int]);
                let j = choose|j: int| 0 <= j < incoming@.len() && incoming@[j].0 == e;
                assert(incoming@[j].4 == target_input);
            }
        }
        false
    }

    /// Returns the number of parameters in the graph.
    pub fn num_params(&self) -> (r: usize)
        ensures
            r == self.param_names().len(),
    {
        self.params.len()
    }

    /// Returns the index of the parameter with the specified name.
    pub fn param_index(&self, name: &str) -> (r: Option<NodeIndex>)
        requires
            self.wf(),
        ensures
            r == self.param_of(name@),
    {
        match self.find_param(name) {
            Some(i) => {
                proof { self.lemma_param_at(i as int); }
                Some(self.params[i].1)
            },
            None => None,
        }
    }

    /// The parameter at position `i` is the one its name finds.
    proof fn lemma_param_at(&self, i: int)
        requires
            self.wf(),
            0 <= i < self.params@.len(),
        ensures
            self.param_of(self.params@[i].0@) == Some(self.params@[i].1),
    {
        let k = self.params@[i].0@;
        let c = choose|j: int| 0 <= j < self.params@.len() && #[trigger] self.params@[j].0@ == k;
        if c != i {
            if c < i {
                assert(self.params@[c].0@ != self.params@[i].0@);
            } else {
                assert(self.params@[i].0@ != self.params@[c].0@);
            }
        }
    }

    /// Returns the index of the MIDI input with the specified name.
    pub fn midi_input_index(&self, name: &str) -> (r: Option<NodeIndex>)
        requires
            self.wf(),
        ensures
            r == (match self.param_of(name@) {
                Some(i) => if self.midi_param_nodes().contains(i) { Some(i) } else { None },
                None => None,
            }),
    {
        match self.param_index(name) {
            Some(idx) => {
                let mut k: usize = 0;
                while k < self.midi_params.len()
                    invariant
                        k <= self.midi_params@.len(),
                        self.param_of(name@) == Some(idx),
                        forall|j: int| 0 <= j < k ==> self.midi_params@[j] != idx,
                    decreases self.midi_params@.len() - k,
                {
                    if self.midi_params[k] == idx {
                        proof {
                            assert(self.midi_param_nodes()[k as int] == idx);
                            assert(self.midi_param_nodes().contains(idx));
                        }
                        return Some(idx);
                    }
                    k += 1;
                }
                None
            },
            None => None,
        }
    }

    /// Returns the indices of the audio inputs in the graph.
    pub fn input_indices(&self) -> (r: &[NodeIndex])
        ensures
            r@ == self.input_nodes(),
    {
        self.input_nodes.as_slice()
    }

    /// Returns the indices of the audio outputs in the graph.
    pub fn output_indices(&self) -> (r: &[NodeIndex])
        ensures
            r@ == self.output_nodes(),
    {
        self.output_nodes.as_slice()
    }
}

/// Removing the live edge of slot `e` removes its tuple from the edge set when no other slot
/// holds the same tuple.
pub proof fn lemma_edge_set_remove(edges: Seq<Option<(u32, u32, u32, u32)>>, e: int)
    requires
        0 <= e < edges.len(),
        edges[e] is Some,
        forall|f: int| 0 <= f < edges.len() && f != e ==> #[trigger] edges[f] != edges[e],
    ensures
        edge_set(edges.update(e, None)) == edge_set(edges).remove(edges[e]->0),
{
    let new_e = edges.update(e, None);
    let x = edges[e]->0;
    assert forall|t: (u32, u32, u32, u32)| #[trigger] edge_set(new_e).contains(t) == edge_set(edges).remove(x).contains(t) by {
        if edge_set(new_e).contains(t) {
            let f = choose|f: int| 0 <= f < new_e.len() && new_e[f] == Some(t);
            assert(f != e);
            assert(edges[f] == Some(t));
        }
        if edge_set(edges).remove(x).contains(t) {
            let f = choose|f: int| 0 <= f < edges.len() && edges[f] == Some(t);
            assert(f != e);
            assert(new_e[f] == Some(t));
        }
    }
    assert(edge_set(new_e) =~= edge_set(edges).remove(x));
}

/// Filling a vacant slot, or a new one at the end, with `m` adds `m` to the edge set.
pub proof fn lemma_edge_set_add(edges: Seq<Option<(u32, u32, u32, u32)>>, new_e: Seq<Option<(u32, u32, u32, u32)>>, r: int, m: (u32, u32, u32, u32))
    requires
        (r == edges.len() && new_e == edges.push(Some(m)))
        || (0 <= r < edges.len() && edges[r] is None && new_e == edges.update(r, Some(m))),
    ensures
        edge_set(new_e) == edge_set(edges).insert(m),
        forall|f: int| 0 <= f < edges.len() && f != r ==> #[trigger] new_e[f] == edges[f],
        new_e[r] == Some(m),
        new_e.len() >= edges.len(),
        new_e.len() <= edges.len() + 1,
        new_e.len() == edges.len() + 1 ==> r == edges.len(),
{
    assert forall|t: (u32, u32, u32, u32)| #[trigger] edge_set(new_e).contains(t) == edge_set(edges).insert(m).contains(t) by {
        if edge_set(new_e).contains(t) && t != m {
            let f = choose|f: int| 0 <= f < new_e.len() && new_e[f] == Some(t);
            assert(f != r);
            assert(edges[f] == Some(t));
        }
        if edge_set(edges).contains(t) {
            let f = choose|f: int| 0 <= f < edges.len() && edges[f] == Some(t);
            assert(f != r);
            assert(new_e[f] == Some(t));
        }
        if t == m {
            assert(new_e[r] == Some(m));
        }
    }
    assert(edge_set(new_e) =~= edge_set(edges).insert(m));
}

/// With unique inputs, a live edge's tuple is held by its slot only, and it is the only
/// live edge into its input.
pub proof fn lemma_unique_slot(edges: Seq<Option<(u32, u32, u32, u32)>>, e: int)
    requires
        inputs_unique(edges),
        0 <= e < edges.len(),
        edges[e] is Some,
    ensures
        forall|f: int| 0 <= f < edges.len() && f != e ==> #[trigger] edges[f] != edges[e],
        ({
            let x = edges[e]->0;
            edge_set(edges).filter(|y: (u32, u32, u32, u32)| !(y.1 == x.1 && y.3 == x.3)) == edge_set(edges).remove(x)
        }),
{
    let x = edges[e]->0;
    assert forall|f: int| 0 <= f < edges.len() && f != e implies #[trigger] edges[f] != edges[e] by {
        if edges[f] == edges[e] {
            assert(edges[f] is Some);
        }
    }
    let a = edge_set(edges).filter(|y: (u32, u32, u32, u32)| !(y.1 == x.1 && y.3 == x.3));
    assert forall|t: (u32, u32, u32, u32)| #[trigger] a.contains(t) == edge_set(edges).remove(x).contains(t) by {
        if edge_set(edges).contains(t) && t != x {
            let f = choose|f: int| 0 <= f < edges.len() && edges[f] == Some(t);
            assert(f != e);
            assert(edges[f] is Some && edges[e] is Some);
        }
    }
    assert(a =~= edge_set(edges).remove(x));
}

/// Whether the live edges form no cycle: no edge leads back to a node that reaches it.
pub open spec fn is_acyclic(edges: Seq<Option<(u32, u32, u32, u32)>>) -> bool {
    forall|u: u32, v: u32| #[trigger] has_edge(edges, u, v) ==> !reaches(edges, v, u)
}

/// Reverses a vector.
fn reversed<T>(v: Vec<T>) -> (r: Vec<T>)
    ensures
        r@ == v@.reverse(),
{
    let mut v = v;
    let ghost orig = v@;
    let mut r: Vec<T> = Vec::new();
    while v.len() > 0
        invariant
            v@ == orig.take(v@.len() as int),
            v@.len() <= orig.len(),
            r@ == orig.skip(v@.len() as int).reverse(),
        decreases v@.len(),
    {
        let ghost k = v@.len() as int;
        let x = v.pop().unwrap();
        r.push(x);
        proof {
            assert(x == orig[k - 1]);
            assert(orig.skip(k - 1) =~= seq![orig[k - 1]].add(orig.skip(k)));
            assert(r@ =~= orig.skip(k - 1).reverse());
        }
    }
    proof {
        assert(orig.skip(0) =~= orig);
    }
    r
}

impl Graph {
    /// The graph after connecting or disconnecting keeps everything but its edges, the
    /// visitor flag and the cached components.
    pub open spec fn same_but_edges(&self, other: &Graph) -> bool {
        &&& other.nodes() == self.nodes()
        &&& other.param_names() == self.param_names()
        &&& forall|k: Seq<char>| #[trigger] other.param_of(k) == self.param_of(k)
        &&& other.midi_param_nodes() == self.midi_param_nodes()
        &&& other.input_nodes() == self.input_nodes()
        &&& other.output_nodes() == self.output_nodes()
        &&& other.visit_order() == self.visit_order()
    }

    /// Recomputes the strongly connected components (feedback loops) of the graph.
    fn detect_sccs(&mut self)
        ensures
            final(self).sccs_current(),
            final(self).digraph == old(self).digraph,
            final(self).params@ == old(self).params@,
            final(self).midi_params@ == old(self).midi_params@,
            final(self).input_nodes@ == old(self).input_nodes@,
            final(self).output_nodes@ == old(self).output_nodes@,
            final(self).visit_path@ == old(self).visit_path@,
            final(self).needs_visitor_alloc == old(self).needs_visitor_alloc,
    {
        let comps = digraph_tarjan_scc(&self.digraph);
        let ghost l = comps@.map_values(|c: Vec<NodeIndex>| c@);
        let rev = reversed(comps);
        self.sccs = rev;
        proof {
            assert(self.scc_list().reverse() =~= l);
        }
    }

    /// Returns the cached strongly connected components, in topological order.
    pub(crate) fn sccs(&self) -> (r: &[Vec<NodeIndex>])
        ensures
            r@.map_values(|c: Vec<NodeIndex>| c@) == self.scc_list(),
    {
        self.sccs.as_slice()
    }

    /// Returns whether `node` lies in a cached component of more than one node.
    pub(crate) fn is_in_scc(&self, node: NodeIndex) -> (r: bool)
        ensures
            r == exists|c: int| 0 <= c < self.scc_list().len() && (#[trigger] self.scc_list()[c]).len() > 1
                && self.scc_list()[c].contains(node),
    {
        let mut c: usize = 0;
        while c < self.sccs.len()
            invariant
                c <= self.sccs@.len(),
                forall|d: int| 0 <= d < c ==> !((#[trigger] self.scc_list()[d]).len() > 1 && self.scc_list()[d].contains(node)),
            decreases self.sccs@.len() - c,
        {
            let comp = &self.sccs[c];
            if comp.len() > 1 {
                let mut k: usize = 0;
                while k < comp.len()
                    invariant
                        k <= comp@.len(),
                        c < self.sccs@.len(),
                        comp@.len() > 1,
                        comp@ == self.scc_list()[c as int],
                        forall|j: int| 0 <= j < k ==> comp@[j] != node,
                    decreases comp@.len() - k,
                {
                    if comp[k] == node {
                        proof { assert(self.scc_list()[c as int][k as int] == node); }
                        return true;
                    }
                    k += 1;
                }
            }
            c += 1;
        }
        false
    }

    /// Connects two nodes in the graph.
    ///
    /// If the edge already exists, this function does nothing.
    ///
    /// If the target node already has an incoming edge at the target input, the existing edge is removed.
    #[verifier::loop_isolation(false)]
    pub fn connect(&mut self, source: NodeIndex, source_output: u32, target: NodeIndex, target_input: u32) -> (r: Result<(), GraphConstructionError>)
        requires
            old(self).wf(),
            old(self).has_node(source),
            old(self).has_node(target),
            connect_has_room(old(self).edges(), target.index, target_input),
        ensures
            r is Ok,
            final(self).wf(),
            old(self).same_but_edges(final(self)),
            final(self).node_weights() == old(self).node_weights(),
            final(self).edges().len() <= old(self).edges().len() + 1,
            live_edges(final(self).edges()) <= live_edges(old(self).edges()) + 1,
            final(self).edge_set() == connect_result(old(self).edge_set(), source.index, source_output, target.index, target_input),
            old(self).edge_set().contains((source.index, target.index, source_output, target_input)) ==> {
                &&& final(self).needs_alloc() == old(self).needs_alloc()
                &&& final(self).scc_list() == old(self).scc_list()
            },
            !old(self).edge_set().contains((source.index, target.index, source_output, target_input)) ==> {
                &&& final(self).needs_alloc()
                &&& final(self).sccs_current()
            },
    {
        let m = (source.index, target.index, source_output, target_input);
        let ghost es = old(self).edges();
        // check if the edge already exists
        let incoming = digraph_edges_directed(&self.digraph, target, Direction::Incoming);
        let mut i: usize = 0;
        while i < incoming.len()
            invariant
                i <= incoming@.len(),
                forall|j: int| 0 <= j < i ==> !({
                    let x = #[trigger] incoming@[j];
                    x.1 == source.index && x.3 == source_output && x.4 == target_input
                }),
            decreases incoming@.len() - i,
        {
            let x = incoming[i];
            if x.1 == source.index && x.3 == source_output && x.4 == target_input {
                proof {
                    let e = x.0 as int;
                    assert(es[e] == Some(m));
                    lemma_unique_slot(es, e);
                    assert(edge_set(es).contains(m));
                    assert(connect_result(edge_set(es), source.index, source_output, target.index, target_input) =~= edge_set(es));
                }
                return Ok(());
            }
            i += 1;
        }
        proof {
            assert(!edge_set(es).contains(m)) by {
                if edge_set(es).contains(m) {
                    let e = choose|e: int| 0 <= e < es.len() && es[e] == Some(m);
                    assert(slot_at(es[e], target.index, Direction::Incoming));
                    let j = choose|j: int| 0 <= j < incoming@.len() && incoming@[j].0 == e;
                    assert(incoming@[j] == (e as u32, m.0, m.1, m.2, m.3));
                }
            }
        }
        // check if there's already a connection to the target input
        let mut k: usize = 0;
        let mut found: Option<u32> = None;
        while k < incoming.len()
            invariant
                k <= incoming@.len(),
                found is None,
                forall|j: int| 0 <= j < k ==> (#[trigger] incoming@[j]).4 != target_input,
            decreases incoming@.len() - k,
        {
            if incoming[k].4 == target_input {
                proof { assert(incoming@[k as int].0 == incoming@[k as int].0); }
                found = Some(incoming[k].0);
                break;
            }
            k += 1;
        }
        let ghost mid_edges = es;
        match found {
            Some(e) => {
                let removed = digraph_remove_edge(&mut self.digraph, e);
                proof {
                    let j = choose|j: int| 0 <= j < incoming@.len() && incoming@[j].0 == e && incoming@[j].4 == target_input;
                    let x = es[e as int]->0;
                    assert(x.1 == target.index && x.3 == target_input);
                    lemma_unique_slot(es, e as int);
                    lemma_edge_set_remove(es, e as int);
                    lemma_live_edges_update(es, e as int, None);
                    mid_edges = self.edges();
                    assert(edge_set(mid_edges).filter(|y: (u32, u32, u32, u32)| !(y.1 == target.index && y.3 == target_input))
                        =~= edge_set(mid_edges));
                }
            },
            None => {
                proof {
                    assert(edge_set(es).filter(|y: (u32, u32, u32, u32)| !(y.1 == target.index && y.3 == target_input))
                        =~= edge_set(es)) by {
                        assert forall|t: (u32, u32, u32, u32)| edge_set(es).contains(t) implies !(t.1 == target.index && t.3 == target_input) by {
                            let e = choose|e: int| 0 <= e < es.len() && es[e] == Some(t);
                            if t.1 == target.index && t.3 == target_input {
                                assert(slot_at(es[e], target.index, Direction::Incoming));
                                let j = choose|j: int| 0 <= j < incoming@.len() && incoming@[j].0 == e;
                            }
                        }
                    }
                }
            },
        }
        proof {
            // no live edge enters the target input any more
            assert forall|f: int| 0 <= f < mid_edges.len() && #[trigger] mid_edges[f] is Some
                implies !slot_at_input(mid_edges[f], target.index, target_input) by {
                let t = mid_edges[f]->0;
                assert(edge_set(mid_edges).contains(t));
                if t.1 == target.index && t.3 == target_input {
                    assert(!edge_set(mid_edges).filter(|y: (u32, u32, u32, u32)| !(y.1 == target.index && y.3 == target_input)).contains(t));
                }
            }
        }
        proof {
            match found {
                Some(e) => {
                    assert(mid_edges[e as int] is None);
                    assert(has_vacant_slot(mid_edges));
                },
                None => {
                    assert(mid_edges == es);
                    if !(es.len() < u32::MAX) && !has_vacant_slot(es) {
                        let e = choose|e: int| 0 <= e < es.len() && #[trigger] slot_at_input(es[e], target.index, target_input);
                        assert(es[e] is Some);
                    }
                },
            }
        }
        self.needs_visitor_alloc = true;
        let slot = digraph_add_edge(&mut self.digraph, source, target, Edge::new(source_output, target_input));
        proof {
            lemma_live_edges(mid_edges);
            if slot as int == mid_edges.len() {
                lemma_live_edges_push(mid_edges, m);
            } else {
                lemma_live_edges_update(mid_edges, slot as int, Some(m));
            }
            assert(live_edges(mid_edges) <= live_edges(es));
            lemma_edge_set_add(mid_edges, self.edges(), slot as int, m);
            let new_e = self.edges();
            assert(new_e[slot as int] == Some(m));
            assert forall|e1: int, e2: int| 0 <= e1 < new_e.len() && 0 <= e2 < new_e.len() && e1 != e2
                && #[trigger] new_e[e1] is Some && #[trigger] new_e[e2] is Some
                implies ({ let (x, y) = (new_e[e1]->0, new_e[e2]->0); !(x.1 == y.1 && x.3 == y.3) }) by {
                if e1 != slot as int && e2 != slot as int {
                    assert(mid_edges[e1] == new_e[e1] && mid_edges[e2] == new_e[e2]);
                } else if e1 == slot as int {
                    assert(mid_edges[e2] == new_e[e2]);
                } else {
                    assert(mid_edges[e1] == new_e[e1]);
                }
            }
            assert forall|e: int| 0 <= e < new_e.len() && #[trigger] new_e[e] is Some
                implies ({ let x = new_e[e]->0; x.0 < self.node_count() && x.1 < self.node_count() }) by {
                if e != slot as int {
                    assert(mid_edges[e] == new_e[e]);
                    if mid_edges == es {
                    } else {
                        assert(es[e] is Some);
                    }
                }
            }
        }
        self.detect_sccs();
        proof {
            assert forall|k2: Seq<char>| #[trigger] self.param_of(k2) == old(self).param_of(k2) by {
                assert(self.params@ == old(self).params@);
            }
        }
        Ok(())
    }
}

/// Whether a connection into input `ti` of node `t` finds an edge slot: fewer than `u32::MAX`
/// slots are in use, a slot is vacant, or an edge into that input will be replaced.
pub open spec fn connect_has_room(edges: Seq<Option<(u32, u32, u32, u32)>>, t: u32, ti: u32) -> bool {
    ||| edges.len() < u32::MAX
    ||| has_vacant_slot(edges)
    ||| exists|e: int| 0 <= e < edges.len() && #[trigger] slot_at_input(edges[e], t, ti)
}

/// Whether a cast node converts values of type `from` to type `to`: bool and int, bool and
/// float, int and float, string and float, string and int, either way.
pub open spec fn cast_pair(from: SignalType, to: SignalType) -> bool {
    ||| (from is Bool && to is Int) || (from is Int && to is Bool)
    ||| (from is Bool && to is Float) || (from is Float && to is Bool)
    ||| (from is Int && to is Float) || (from is Float && to is Int)
    ||| (from is String && to is Float) || (from is Float && to is String)
    ||| (from is String && to is Int) || (from is Int && to is String)
}

impl Graph {
    /// Connects output `so` of `source` to input `ti` of `target`, where no edge enters that
    /// input yet.
    fn feed(&mut self, source: NodeIndex, so: u32, target: NodeIndex, ti: u32)
        requires
            old(self).wf(),
            old(self).has_node(source),
            old(self).has_node(target),
            live_edges(old(self).edges()) < u32::MAX,
            old(self).input_free(target.index, ti),
        ensures
            final(self).wf(),
            old(self).same_but_edges(final(self)),
            final(self).node_weights() == old(self).node_weights(),
            live_edges(final(self).edges()) <= live_edges(old(self).edges()) + 1,
            final(self).edge_set() == old(self).edge_set().insert((source.index, target.index, so, ti)),
            final(self).needs_alloc(),
    {
        let ghost set0 = old(self).edge_set();
        proof { lemma_live_edges(self.edges()); }
        let r = self.connect(source, so, target, ti);
        proof {
            assert(set0.filter(|x: (u32, u32, u32, u32)| !(x.1 == target.index && x.3 == ti)) =~= set0) by {
                assert forall|x: (u32, u32, u32, u32)| set0.contains(x) implies !(x.1 == target.index && x.3 == ti) by {
                    let e = choose|e: int| 0 <= e < old(self).edges().len() && old(self).edges()[e] == Some(x);
                    assert(!slot_at_input(old(self).edges()[e], target.index, ti));
                }
            }
        }
    }

    /// Whether no live edge enters input `ti` of node `n`.
    pub open spec fn input_free(&self, n: u32, ti: u32) -> bool {
        forall|e: int| 0 <= e < self.edges().len() ==> !#[trigger] slot_at_input(self.edges()[e], n, ti)
    }

    /// An input that no edge of the edge set enters is free.
    proof fn lemma_input_free(&self, n: u32, ti: u32)
        requires
            forall|x: (u32, u32, u32, u32)| #[trigger] self.edge_set().contains(x) ==> !(x.1 == n && x.3 == ti),
        ensures
            self.input_free(n, ti),
    {
        assert forall|e: int| 0 <= e < self.edges().len() implies !#[trigger] slot_at_input(self.edges()[e], n, ti) by {
            if self.edges()[e] is Some {
                let x = self.edges()[e]->0;
                assert(self.edge_set().contains(x));
            }
        }
    }

    /// Adds a node that passes output `source_output` of `source`, of type `t`, on unchanged
    /// (a [`Passthrough`] fed by that output), and returns it.
    pub fn add_node_from(&mut self, source: NodeIndex, source_output: u32, t: SignalType) -> (r: NodeIndex)
        requires
            old(self).wf(),
            old(self).has_node(source),
            old(self).node_count() < u32::MAX,
            live_edges(old(self).edges()) < u32::MAX,
        ensures
            final(self).wf(),
            r.index == old(self).node_count(),
            final(self).nodes() == old(self).nodes().push(true),
            final(self).edge_set() == old(self).edge_set().insert((source.index, r.index, source_output, 0u32)),
            final(self).param_names() == old(self).param_names(),
            final(self).input_nodes() == old(self).input_nodes(),
            final(self).output_nodes() == old(self).output_nodes(),
            final(self).needs_alloc(),
            signature(final(self).node_weights()[r.index].input_specs()) == seq![("in"@, t)],
            signature(final(self).node_weights()[r.index].output_specs()) == seq![("out"@, t)],
            final(self).node_weights()[r.index].name_spec() == "Passthrough"@,
    {
        let node = self.add_processor(Passthrough::new(t));
        proof {
            assert forall|x: (u32, u32, u32, u32)| #[trigger] self.edge_set().contains(x) implies !(x.1 == node.index && x.3 == 0u32) by {
                let e = choose|e: int| 0 <= e < self.edges().len() && self.edges()[e] == Some(x);
                assert(old(self).edges()[e] is Some);
            }
            self.lemma_input_free(node.index, 0);
        }
        self.feed(source, source_output, node, 0);
        node
    }

    /// Adds a [`Register`] of type `t` whose `set` input is fed by output `source_output` of
    /// `source`, and returns it.
    pub fn add_register_from(&mut self, source: NodeIndex, source_output: u32, t: SignalType) -> (r: NodeIndex)
        requires
            old(self).wf(),
            old(self).has_node(source),
            old(self).node_count() < u32::MAX,
            live_edges(old(self).edges()) < u32::MAX,
            !(t is Dynamic),
        ensures
            final(self).wf(),
            r.index == old(self).node_count(),
            final(self).nodes() == old(self).nodes().push(true),
            final(self).edge_set() == old(self).edge_set().insert((source.index, r.index, source_output, 0u32)),
            final(self).param_names() == old(self).param_names(),
            final(self).input_nodes() == old(self).input_nodes(),
            final(self).output_nodes() == old(self).output_nodes(),
            final(self).needs_alloc(),
            signature(final(self).node_weights()[r.index].input_specs()) == seq![("set"@, t), ("clear"@, SignalType::Bool)],
            signature(final(self).node_weights()[r.index].output_specs()) == seq![("out"@, t)],
            final(self).node_weights()[r.index].name_spec() == "Register"@,
    {
        let node = self.add_processor(Register::new(t));
        proof {
            assert forall|x: (u32, u32, u32, u32)| #[trigger] self.edge_set().contains(x) implies !(x.1 == node.index && x.3 == 0u32) by {
                let e = choose|e: int| 0 <= e < self.edges().len() && self.edges()[e] == Some(x);
                assert(old(self).edges()[e] is Some);
            }
            self.lemma_input_free(node.index, 0);
        }
        self.feed(source, source_output, node, 0);
        node
    }

    /// Adds a [`Cond`] of type `t` whose `cond`, `then` and `else` inputs are fed by the given
    /// outputs, and returns it; `None` for `Dynamic`, which no condition node carries.
    pub fn add_cond(&mut self, cond: NodeIndex, cond_output: u32, then: NodeIndex, then_output: u32, else_: NodeIndex, else_output: u32, t: SignalType) -> (r: Option<NodeIndex>)
        requires
            old(self).wf(),
            old(self).has_node(cond),
            old(self).has_node(then),
            old(self).has_node(else_),
            old(self).node_count() < u32::MAX,
            live_edges(old(self).edges()) + 3 <= u32::MAX,
        ensures
            final(self).wf(),
            t is Dynamic ==> r is None && *final(self) == *old(self),
            !(t is Dynamic) ==> {
                let n = old(self).node_count() as u32;
                &&& r == Some(NodeIndex { index: n })
                &&& final(self).nodes() == old(self).nodes().push(true)
                &&& final(self).edge_set() == old(self).edge_set().insert((cond.index, n, cond_output, 0u32))
                        .insert((then.index, n, then_output, 1u32)).insert((else_.index, n, else_output, 2u32))
                &&& final(self).param_names() == old(self).param_names()
                &&& final(self).input_nodes() == old(self).input_nodes()
                &&& final(self).output_nodes() == old(self).output_nodes()
                &&& final(self).needs_alloc()
                &&& signature(final(self).node_weights()[n].input_specs()) == seq![("cond"@, SignalType::Bool), ("then"@, t), ("else"@, t)]
                &&& signature(final(self).node_weights()[n].output_specs()) == seq![("out"@, t)]
                &&& final(self).node_weights()[n].name_spec() == "Cond"@
            },
    {
        let node = match t {
            SignalType::Bool => self.add_processor(Cond::<bool>::new()),
            SignalType::Int => self.add_processor(Cond::<i64>::new()),
            SignalType::Float => self.add_processor(Cond::<Float>::new()),
            SignalType::String => self.add_processor(Cond::<String>::new()),
            SignalType::List => self.add_processor(Cond::<List>::new()),
            SignalType::Midi => self.add_processor(Cond::<MidiMessage>::new()),
            SignalType::Dynamic => return None,
        };
        proof {
            assert forall|x: (u32, u32, u32, u32)| #[trigger] self.edge_set().contains(x) implies x.1 != node.index by {
                let e = choose|e: int| 0 <= e < self.edges().len() && self.edges()[e] == Some(x);
                assert(old(self).edges()[e] is Some);
            }
            self.lemma_input_free(node.index, 0);
        }
        self.feed(cond, cond_output, node, 0);
        proof { self.lemma_input_free(node.index, 1); }
        self.feed(then, then_output, node, 1);
        proof { self.lemma_input_free(node.index, 2); }
        self.feed(else_, else_output, node, 2);
        Some(node)
    }
}

impl Graph {
    /// Makes output `source_output` of `source`, of type `from`, available as type `to`: for
    /// equal types it is the source itself; for a pair that [`cast_pair`] names, a [`Cast`]
    /// node from `from` to `to` (converting to and from doubles with `C`) is added, fed by that
    /// output; for any other pair there is no cast, and `None` comes back. Only a new node
    /// changes the graph.
    pub fn add_cast<C: FloatCasts + 'static>(&mut self, source: NodeIndex, source_output: u32, from: SignalType, to: SignalType) -> (r: Option<NodeIndex>)
        requires
            old(self).wf(),
            old(self).has_node(source),
            old(self).node_count() < u32::MAX,
            old(self).edges().len() < u32::MAX || has_vacant_slot(old(self).edges()),
        ensures
            final(self).wf(),
            from == to ==> r == Some(source) && *final(self) == *old(self),
            from != to && !cast_pair(from, to) ==> r is None && *final(self) == *old(self),
            from != to && cast_pair(from, to) ==> {
                let n = old(self).node_count() as u32;
                &&& r == Some(NodeIndex { index: n })
                &&& final(self).nodes() == old(self).nodes().push(true)
                &&& final(self).edge_set() == old(self).edge_set().insert((source.index, n, source_output, 0u32))
                &&& final(self).param_names() == old(self).param_names()
                &&& forall|k: Seq<char>| #[trigger] final(self).param_of(k) == old(self).param_of(k)
                &&& final(self).midi_param_nodes() == old(self).midi_param_nodes()
                &&& final(self).input_nodes() == old(self).input_nodes()
                &&& final(self).output_nodes() == old(self).output_nodes()
                &&& final(self).needs_alloc()
                &&& signature(final(self).node_weights()[n].input_specs()) == seq![("in"@, from)]
                &&& signature(final(self).node_weights()[n].output_specs()) == seq![("out"@, to)]
                &&& final(self).node_weights()[n].name_spec() == "Cast"@
                &&& forall|m: u32| m != n ==> #[trigger] final(self).node_weights()[m] == old(self).node_weights()[m]
            },
    {
        if from == to {
            return Some(source);
        }
        let supported = match (from, to) {
            (SignalType::Bool, SignalType::Int) | (SignalType::Int, SignalType::Bool)
            | (SignalType::Bool, SignalType::Float) | (SignalType::Float, SignalType::Bool)
            | (SignalType::Int, SignalType::Float) | (SignalType::Float, SignalType::Int)
            | (SignalType::String, SignalType::Float) | (SignalType::Float, SignalType::String)
            | (SignalType::String, SignalType::Int) | (SignalType::Int, SignalType::String) => true,
            _ => false,
        };
        if !supported {
            return None;
        }
        let ghost g0 = *self;
        let node = self.add_processor(Cast::<C>::new(from, to));
        let ghost g1 = *self;
        proof {
            assert(!has_vacant_slot(g0.edges()) ==> g1.edges().len() < u32::MAX);
            assert forall|e: int| 0 <= e < g1.edges().len() implies !#[trigger] slot_at_input(g1.edges()[e], node.index, 0) by {
                if g1.edges()[e] is Some {
                    assert(g0.edges()[e] is Some);
                }
            }
        }
        let res = self.connect(source, source_output, node, 0);
        proof {
            let set0 = g0.edge_set();
            assert(set0.filter(|x: (u32, u32, u32, u32)| !(x.1 == node.index && x.3 == 0u32)) =~= set0) by {
                assert forall|x: (u32, u32, u32, u32)| set0.contains(x) implies !(x.1 == node.index && x.3 == 0u32) by {
                    let e = choose|e: int| 0 <= e < g0.edges().len() && g0.edges()[e] == Some(x);
                    assert(g0.edges()[e] is Some);
                }
            }
            assert forall|k: Seq<char>| #[trigger] self.param_of(k) == g0.param_of(k) by {
                assert(self.param_of(k) == g1.param_of(k));
            }
        }
        Some(node)
    }

    /// Disconnects two nodes in the graph at the specified input and output indices.
    ///
    /// Does nothing if the edge does not exist.
    #[verifier::loop_isolation(false)]
    pub fn disconnect(&mut self, source: NodeIndex, source_output: u32, target: NodeIndex, target_input: u32)
        requires
            old(self).wf(),
        ensures
            final(self).wf(),
            old(self).same_but_edges(final(self)),
            final(self).edge_set() == old(self).edge_set().remove((source.index, target.index, source_output, target_input)),
            old(self).edge_set().contains((source.index, target.index, source_output, target_input)) ==> {
                &&& final(self).needs_alloc()
                &&& final(self).sccs_current()
            },
            !old(self).edge_set().contains((source.index, target.index, source_output, target_input)) ==> {
                &&& final(self).needs_alloc() == old(self).needs_alloc()
                &&& final(self).scc_list() == old(self).scc_list()
            },
    {
        let m = (source.index, target.index, source_output, target_input);
        let ghost es = old(self).edges();
        let incoming = digraph_edges_directed(&self.digraph, target, Direction::Incoming);
        let mut i: usize = 0;
        let mut found: Option<u32> = None;
        while i < incoming.len()
            invariant
                i <= incoming@.len(),
                found is None,
                forall|j: int| 0 <= j < i ==> !({
                    let x = #[trigger] incoming@[j];
                    x.1 == source.index && x.3 == source_output && x.4 == target_input
                }),
            decreases incoming@.len() - i,
        {
            let x = incoming[i];
            if x.1 == source.index && x.3 == source_output && x.4 == target_input {
                found = Some(x.0);
                break;
            }
            i += 1;
        }
        proof {
            assert forall|k2: Seq<char>| #[trigger] self.param_of(k2) == old(self).param_of(k2) by {
                assert(self.params@ == old(self).params@);
            }
        }
        match found {
            Some(e) => {
                proof {
                    assert(es[e as int] == Some(m));
                    assert(edge_set(es).contains(m));
                    lemma_unique_slot(es, e as int);
                }
                self.needs_visitor_alloc = true;
                let _ = digraph_remove_edge(&mut self.digraph, e);
                proof {
                    lemma_edge_set_remove(es, e as int);
                    let new_e = self.edges();
                    assert forall|e1: int, e2: int| 0 <= e1 < new_e.len() && 0 <= e2 < new_e.len() && e1 != e2
                        && #[trigger] new_e[e1] is Some && #[trigger] new_e[e2] is Some
                        implies ({ let (x, y) = (new_e[e1]->0, new_e[e2]->0); !(x.1 == y.1 && x.3 == y.3) }) by {
                        assert(es[e1] == new_e[e1] && es[e2] == new_e[e2]);
                    }
                    assert forall|f: int| 0 <= f < new_e.len() && #[trigger] new_e[f] is Some
                        implies ({ let x = new_e[f]->0; x.0 < self.node_count() && x.1 < self.node_count() }) by {
                        assert(es[f] == new_e[f]);
                    }
                }
                self.detect_sccs();
                proof {
                    assert forall|k2: Seq<char>| #[trigger] self.param_of(k2) == old(self).param_of(k2) by {
                        assert(self.params@ == old(self).params@);
                    }
                }
            },
            None => {
                proof {
                    assert(!edge_set(es).contains(m)) by {
                        if edge_set(es).contains(m) {
                            let e = choose|e: int| 0 <= e < es.len() && es[e] == Some(m);
                            assert(slot_at(es[e], target.index, Direction::Incoming));
                            let j = choose|j: int| 0 <= j < incoming@.len() && incoming@[j].0 == e;
                            assert(incoming@[j] == (e as u32, m.0, m.1, m.2, m.3));
                        }
                    }
                    assert(edge_set(es).remove(m) =~= edge_set(es));
                }
            },
        }
    }

    /// Removes every edge that enters (`Incoming`) or leaves (`Outgoing`) `node`.
    #[verifier::loop_isolation(false)]
    fn disconnect_all_dir(&mut self, node: NodeIndex, dir: Direction)
        requires
            old(self).wf(),
        ensures
            final(self).wf(),
            old(self).same_but_edges(final(self)),
            final(self).edge_set() == old(self).edge_set().filter(|t: (u32, u32, u32, u32)| !edge_at(t, node.index, dir)),
            final(self).needs_alloc() == (old(self).needs_alloc()
                || exists|t: (u32, u32, u32, u32)| #[trigger] old(self).edge_set().contains(t) && edge_at(t, node.index, dir)),
            final(self).scc_list() == old(self).scc_list(),
    {
        let ghost es = old(self).edges();
        let list = digraph_edges_directed(&self.digraph, node, dir);
        let mut i: usize = 0;
        while i < list.len()
            invariant
                i <= list@.len(),
                self.nodes() == old(self).nodes(),
                self.edges().len() == es.len(),
                forall|f: int| 0 <= f < es.len() ==> #[trigger] self.edges()[f] == (
                    if exists|j: int| 0 <= j < i && (#[trigger] list@[j]).0 == f { None } else { es[f] }),
                self.needs_visitor_alloc == (old(self).needs_visitor_alloc || i > 0),
                self.params@ == old(self).params@,
                self.midi_params@ == old(self).midi_params@,
                self.input_nodes@ == old(self).input_nodes@,
                self.output_nodes@ == old(self).output_nodes@,
                self.visit_path@ == old(self).visit_path@,
                self.sccs@ == old(self).sccs@,
            decreases list@.len() - i,
        {
            let e = list[i].0;
            self.needs_visitor_alloc = true;
            let ghost before = self.edges();
            proof {
                assert(before[e as int] == es[e as int]) by {
                    if exists|j: int| 0 <= j < i && (#[trigger] list@[j]).0 == e as int {
                        let j = choose|j: int| 0 <= j < i && (#[trigger] list@[j]).0 == e as int;
                        assert(list@[j].0 != list@[i as int].0);
                    }
                }
            }
            let _ = digraph_remove_edge(&mut self.digraph, e);
            proof {
                assert forall|f: int| 0 <= f < es.len() implies #[trigger] self.edges()[f] == (
                    if exists|j: int| 0 <= j < i + 1 && (#[trigger] list@[j]).0 == f { None } else { es[f] }) by {
                    if f == e as int {
                        assert(list@[i as int].0 == f);
                    } else {
                        if exists|j: int| 0 <= j < i + 1 && (#[trigger] list@[j]).0 == f {
                            let j = choose|j: int| 0 <= j < i + 1 && (#[trigger] list@[j]).0 == f;
                            assert(j != i);
                        }
                    }
                }
            }
            i += 1;
        }
        proof {
            let new_e = self.edges();
            assert(new_e.len() == es.len());
            // a slot is cleared exactly when it held an edge at the node
            assert forall|f: int| 0 <= f < es.len() implies #[trigger] new_e[f] == (
                if slot_at(es[f], node.index, dir) { None } else { es[f] }) by {
                if slot_at(es[f], node.index, dir) {
                    assert(es[f] is Some);
                    let x = es[f]->0;
                    assert(x.0 < self.node_count() && x.1 < self.node_count());
                    assert(is_live(digraph_nodes(self.digraph), node.index));
                    let j = choose|j: int| 0 <= j < list@.len() && list@[j].0 == f;
                } else {
                    if exists|j: int| 0 <= j < list@.len() && (#[trigger] list@[j]).0 == f {
                        let j = choose|j: int| 0 <= j < list@.len() && (#[trigger] list@[j]).0 == f;
                        let x = list@[j];
                        assert(es[f] == Some((x.1, x.2, x.3, x.4)));
                    }
                }
            }
            let target_set = edge_set(es).filter(|t: (u32, u32, u32, u32)| !edge_at(t, node.index, dir));
            assert forall|t: (u32, u32, u32, u32)| #[trigger] edge_set(new_e).contains(t) == target_set.contains(t) by {
                if edge_set(new_e).contains(t) {
                    let f = choose|f: int| 0 <= f < new_e.len() && new_e[f] == Some(t);
                    assert(es[f] == Some(t));
                }
                if target_set.contains(t) {
                    let f = choose|f: int| 0 <= f < es.len() && es[f] == Some(t);
                    assert(new_e[f] == Some(t));
                }
            }
            assert(edge_set(new_e) =~= target_set);
            if list@.len() > 0 {
                let x = list@[0];
                let t = (x.1, x.2, x.3, x.4);
                assert(es[x.0 as int] == Some(t));
                assert(edge_set(es).contains(t));
                assert(edge_at(t, node.index, dir));
                assert(old(self).edge_set().contains(t) && edge_at(t, node.index, dir));
            } else {
                assert(!exists|t: (u32, u32, u32, u32)| #[trigger] edge_set(es).contains(t) && edge_at(t, node.index, dir)) by {
                    if exists|t: (u32, u32, u32, u32)| #[trigger] edge_set(es).contains(t) && edge_at(t, node.index, dir) {
                        let t = choose|t: (u32, u32, u32, u32)| #[trigger] edge_set(es).contains(t) && edge_at(t, node.index, dir);
                        let f = choose|f: int| 0 <= f < es.len() && es[f] == Some(t);
                        assert(slot_at(es[f], node.index, dir));
                        assert(is_live(digraph_nodes(self.digraph), node.index));
                        let j = choose|j: int| 0 <= j < list@.len() && list@[j].0 == f;
                    }
                }
            }
            assert forall|e1: int, e2: int| 0 <= e1 < new_e.len() && 0 <= e2 < new_e.len() && e1 != e2
                && #[trigger] new_e[e1] is Some && #[trigger] new_e[e2] is Some
                implies ({ let (x, y) = (new_e[e1]->0, new_e[e2]->0); !(x.1 == y.1 && x.3 == y.3) }) by {
                assert(es[e1] == new_e[e1] && es[e2] == new_e[e2]);
            }
            assert forall|f: int| 0 <= f < new_e.len() && #[trigger] new_e[f] is Some
                implies ({ let x = new_e[f]->0; x.0 < self.node_count() && x.1 < self.node_count() }) by {
                assert(es[f] == new_e[f]);
            }
            assert forall|k2: Seq<char>| #[trigger] self.param_of(k2) == old(self).param_of(k2) by {
                assert(self.params@ == old(self).params@);
            }
        }
    }

    /// Disconnects all inputs to the specified node.
    pub fn disconnect_all_inputs(&mut self, node: NodeIndex)
        requires
            old(self).wf(),
        ensures
            final(self).wf(),
            old(self).same_but_edges(final(self)),
            final(self).edge_set() == old(self).edge_set().filter(|t: (u32, u32, u32, u32)| t.1 != node.index),
            final(self).needs_alloc() == (old(self).needs_alloc()
                || exists|t: (u32, u32, u32, u32)| #[trigger] old(self).edge_set().contains(t) && t.1 == node.index),
            final(self).scc_list() == old(self).scc_list(),
    {
        self.disconnect_all_dir(node, Direction::Incoming);
        proof {
            assert(old(self).edge_set().filter(|t: (u32, u32, u32, u32)| !edge_at(t, node.index, Direction::Incoming))
                =~= old(self).edge_set().filter(|t: (u32, u32, u32, u32)| t.1 != node.index));
            if exists|t: (u32, u32, u32, u32)| #[trigger] old(self).edge_set().contains(t) && edge_at(t, node.index, Direction::Incoming) {
                let t = choose|t: (u32, u32, u32, u32)| #[trigger] old(self).edge_set().contains(t) && edge_at(t, node.index, Direction::Incoming);
                assert(old(self).edge_set().contains(t) && t.1 == node.index);
            }
        }
    }

    /// Disconnects all outputs from the specified node.
    pub fn disconnect_all_outputs(&mut self, node: NodeIndex)
        requires
            old(self).wf(),
        ensures
            final(self).wf(),
            old(self).same_but_edges(final(self)),
            final(self).edge_set() == old(self).edge_set().filter(|t: (u32, u32, u32, u32)| t.0 != node.index),
            final(self).needs_alloc() == (old(self).needs_alloc()
                || exists|t: (u32, u32, u32, u32)| #[trigger] old(self).edge_set().contains(t) && t.0 == node.index),
            final(self).scc_list() == old(self).scc_list(),
    {
        self.disconnect_all_dir(node, Direction::Outgoing);
        proof {
            assert(old(self).edge_set().filter(|t: (u32, u32, u32, u32)| !edge_at(t, node.index, Direction::Outgoing))
                =~= old(self).edge_set().filter(|t: (u32, u32, u32, u32)| t.0 != node.index));
            if exists|t: (u32, u32, u32, u32)| #[trigger] old(self).edge_set().contains(t) && edge_at(t, node.index, Direction::Outgoing) {
                let t = choose|t: (u32, u32, u32, u32)| #[trigger] old(self).edge_set().contains(t) && edge_at(t, node.index, Direction::Outgoing);
                assert(old(self).edge_set().contains(t) && t.0 == node.index);
            }
        }
    }

    /// Disconnects all inputs and outputs from the specified node.
    pub fn disconnect_all(&mut self, node: NodeIndex)
        requires
            old(self).wf(),
        ensures
            final(self).wf(),
            old(self).same_but_edges(final(self)),
            final(self).edge_set() == old(self).edge_set().filter(|t: (u32, u32, u32, u32)| t.0 != node.index && t.1 != node.index),
            final(self).scc_list() == old(self).scc_list(),
    {
        self.disconnect_all_inputs(node);
        self.disconnect_all_outputs(node);
        proof {
            assert(old(self).edge_set().filter(|t: (u32, u32, u32, u32)| t.1 != node.index).filter(|t: (u32, u32, u32, u32)| t.0 != node.index)
                =~= old(self).edge_set().filter(|t: (u32, u32, u32, u32)| t.0 != node.index && t.1 != node.index));
        }
    }
}

/// Whether `n` is a live node without entering edges: a starting point of the traversal.
pub open spec fn is_source(nodes: Seq<bool>, edges: Seq<Option<(u32, u32, u32, u32)>>, n: u32) -> bool {
    is_live(nodes, n) && is_external(edges, n, Direction::Incoming)
}

/// The call `Graph::visit_nodes` hands to each node: `prepare` when `prepare` holds, else
/// `resize_buffers` with the sample rate and block size.
spec fn visit_call(sample_rate: Float, block_size: usize, prepare: bool) -> ProcessorCall {
    if prepare { ProcessorCall::Prepare } else { ProcessorCall::ResizeBuffers(sample_rate, block_size as nat) }
}

impl Default for Graph {
    fn default() -> (r: Graph)
        ensures
            r.wf(),
            r.node_count() == 0,
            r.edge_set() == Set::<(u32, u32, u32, u32)>::empty(),
            r.param_names().len() == 0,
            !r.needs_alloc(),
    {
        Graph::new()
    }
}

impl Graph {
    /// Recomputes the visit order: a depth-first post-order traversal, reversed, that starts
    /// from every node without entering edges (in the order petgraph lists them) and then from
    /// any node not reached yet (a node on a cycle that no such node reaches).
    #[verifier::loop_isolation(false)]
    pub(crate) fn reset_visitor(&mut self)
        requires
            old(self).wf(),
        ensures
            final(self).wf(),
            final(self).edges() == old(self).edges(),
            final(self).nodes() == old(self).nodes(),
            final(self).param_names() == old(self).param_names(),
            forall|k: Seq<char>| #[trigger] final(self).param_of(k) == old(self).param_of(k),
            final(self).midi_param_nodes() == old(self).midi_param_nodes(),
            final(self).input_nodes() == old(self).input_nodes(),
            final(self).output_nodes() == old(self).output_nodes(),
            final(self).needs_alloc() == old(self).needs_alloc(),
            final(self).scc_list() == old(self).scc_list(),
            final(self).node_weights() == old(self).node_weights(),
            forall|n: u32| #[trigger] is_source(final(self).nodes(), final(self).edges(), n)
                ==> final(self).visit_order().contains(NodeIndex { index: n }),
            final(self).visits_in_order(),
    {
        let sources = digraph_externals(&self.digraph, Direction::Incoming);
        let n = digraph_node_count(&self.digraph);
        let mut roots: Vec<NodeIndex> = Vec::new();
        let mut k: usize = 0;
        while k < n
            invariant
                k <= n,
                n == self.node_count(),
                self.wf(),
                roots@.len() == k,
                n <= u32::MAX,
                forall|i: int| 0 <= i < k ==> (#[trigger] roots@[i]).index == i,
            decreases n - k,
        {
            roots.push(NodeIndex { index: k as u32 });
            k += 1;
        }
        let mut i: usize = 0;
        while i < sources.len()
            invariant
                i <= sources@.len(),
                roots@.len() == n + i,
                forall|j: int| 0 <= j < n ==> (#[trigger] roots@[j]).index == j,
                forall|j: int| 0 <= j < i ==> roots@[n + j] == #[trigger] sources@[j],
            decreases sources@.len() - i,
        {
            roots.push(sources[i]);
            i += 1;
        }
        proof {
            assert forall|j: int| 0 <= j < roots@.len() implies is_live(digraph_nodes(self.digraph), #[trigger] roots@[j].index) by {
                if j < n {
                    assert(self.nodes()[j]);
                } else {
                    assert(roots@[j] == sources@[j - n]);
                }
            }
        }
        let path = digraph_dfs_post_order(&mut self.visitor, &self.digraph, &roots);
        let ghost p = path@;
        self.visit_path = reversed(path);
        proof {
            assert forall|k2: Seq<char>| #[trigger] self.param_of(k2) == old(self).param_of(k2) by {
                assert(self.params@ == old(self).params@);
            }
            let vo = self.visit_order();
            let es0 = self.edges();
            assert(vo == p.reverse());
            assert forall|i1: int, j1: int| 0 <= i1 < vo.len() && 0 <= j1 < vo.len() && i1 != j1
                implies vo[i1] != vo[j1] by {
                assert(vo[i1] == p[p.len() - 1 - i1]);
                assert(vo[j1] == p[p.len() - 1 - j1]);
            }
            assert forall|i1: int| 0 <= i1 < vo.len() implies (#[trigger] vo[i1]).index < self.node_count() by {
                assert(vo[i1] == p[p.len() - 1 - i1]);
                assert(is_live(self.nodes(), p[p.len() - 1 - i1].index));
            }
            assert forall|m: u32| #[trigger] is_live(self.nodes(), m) <==> vo.contains(NodeIndex { index: m }) by {
                if is_live(self.nodes(), m) {
                    assert(roots@[m as int].index == m);
                    assert(roots@[m as int] == NodeIndex { index: m });
                    assert(p.contains(roots@[m as int]));
                    let k3 = choose|k3: int| 0 <= k3 < p.len() && p[k3] == NodeIndex { index: m };
                    assert(vo[p.len() - 1 - k3] == p[k3]);
                }
                if vo.contains(NodeIndex { index: m }) {
                    let k3 = choose|k3: int| 0 <= k3 < vo.len() && vo[k3] == NodeIndex { index: m };
                    assert(vo[k3] == p[p.len() - 1 - k3]);
                }
            }
            if is_acyclic(es0) {
                assert forall|i: int, j: int| 0 <= i < vo.len() && 0 <= j < vo.len()
                    && #[trigger] has_edge(es0, vo[i].index, vo[j].index) implies i < j by {
                    let ju = p.len() - 1 - i;
                    let jv = p.len() - 1 - j;
                    assert(vo[i] == p[ju]);
                    assert(vo[j] == p[jv]);
                    assert(has_edge(es0, p[ju].index, p[jv].index));
                    assert(!reaches(es0, p[jv].index, p[ju].index));
                    let i2 = choose|i2: int| 0 <= i2 < ju && p[i2].index == p[jv].index;
                    assert(p[i2] == p[jv]);
                    assert(i2 == jv);
                }
            }
        }
    }

    /// Allocates the visitor for the graph.
    pub fn allocate_visitor(&mut self)
        requires
            old(self).wf(),
        ensures
            final(self).wf(),
            final(self).edges() == old(self).edges(),
            final(self).nodes() == old(self).nodes(),
            final(self).param_names() == old(self).param_names(),
            forall|k: Seq<char>| #[trigger] final(self).param_of(k) == old(self).param_of(k),
            final(self).midi_param_nodes() == old(self).midi_param_nodes(),
            final(self).input_nodes() == old(self).input_nodes(),
            final(self).output_nodes() == old(self).output_nodes(),
            !final(self).needs_alloc(),
            final(self).scc_list() == old(self).scc_list(),
            final(self).node_weights() == old(self).node_weights(),
            forall|n: u32| #[trigger] is_source(final(self).nodes(), final(self).edges(), n)
                ==> final(self).visit_order().contains(NodeIndex { index: n }),
            final(self).visits_in_order(),
    {
        self.reset_visitor();
        let ghost mid = *self;
        self.needs_visitor_alloc = false;
        proof {
            assert forall|k: Seq<char>| #[trigger] self.param_of(k) == mid.param_of(k) by {
                assert(self.params@ == mid.params@);
            }
        }
    }

    /// Calls `resize_buffers` (`prepare` when `prepare` holds) on every node in the visit order.
    #[verifier::loop_isolation(false)]
    fn visit_nodes(&mut self, sample_rate: Float, block_size: usize, prepare: bool)
        requires
            old(self).wf(),
        ensures
            final(self).wf(),
            final(self).edges() == old(self).edges(),
            final(self).nodes() == old(self).nodes(),
            final(self).params@ == old(self).params@,
            final(self).midi_params@ == old(self).midi_params@,
            final(self).input_nodes@ == old(self).input_nodes@,
            final(self).output_nodes@ == old(self).output_nodes@,
            final(self).needs_visitor_alloc == old(self).needs_visitor_alloc,
            final(self).visit_path@ == old(self).visit_path@,
            final(self).sccs@ == old(self).sccs@,
            final(self).node_weights().dom() == old(self).node_weights().dom(),
            forall|n: u32| #[trigger] final(self).node_calls(n) == if old(self).visit_order().contains(NodeIndex { index: n }) {
                old(self).node_calls(n).push(visit_call(sample_rate, block_size, prepare))
            } else {
                old(self).node_calls(n)
            },
    {
        let ghost call = visit_call(sample_rate, block_size, prepare);
        let ghost order = old(self).visit_order();
        let mut i: usize = 0;
        while i < self.visit_path.len()
            invariant
                self.wf(),
                i <= order.len(),
                self.edges() == old(self).edges(),
                self.nodes() == old(self).nodes(),
                self.params@ == old(self).params@,
                self.midi_params@ == old(self).midi_params@,
                self.input_nodes@ == old(self).input_nodes@,
                self.output_nodes@ == old(self).output_nodes@,
                self.needs_visitor_alloc == old(self).needs_visitor_alloc,
                self.visit_path@ == old(self).visit_path@,
                self.visit_order() == order,
                self.sccs@ == old(self).sccs@,
                self.node_weights().dom() == old(self).node_weights().dom(),
                forall|n: u32| #[trigger] self.node_calls(n) == if order.take(i as int).contains(NodeIndex { index: n }) {
                    old(self).node_calls(n).push(call)
                } else {
                    old(self).node_calls(n)
                },
            decreases self.visit_path@.len() - i,
        {
            let node = self.visit_path[i];
            proof {
                assert(order[i as int] == node);
                assert(node.index < self.node_count());
                assert(self.nodes()[node.index as int]);
                assert(!order.take(i as int).contains(node)) by {
                    if order.take(i as int).contains(node) {
                        let t0 = order.take(i as int);
                        let k = choose|k: int| 0 <= k < t0.len() && #[trigger] t0[k] == node;
                        assert(order[k] == order[i as int]);
                    }
                }
            }
            let ghost before = *self;
            let w = digraph_index_mut(&mut self.digraph, node);
            if prepare {
                w.prepare();
            } else {
                w.resize_buffers(sample_rate, block_size);
            }
            proof {
                let t0 = order.take(i as int);
                let t1 = order.take(i + 1);
                assert(t1 =~= t0.push(node));
                assert forall|n: u32| #[trigger] self.node_calls(n) == if t1.contains(NodeIndex { index: n }) {
                    old(self).node_calls(n).push(call)
                } else {
                    old(self).node_calls(n)
                } by {
                    if n == node.index {
                        assert(NodeIndex { index: n } == node);
                        assert(t1[i as int] == node);
                        assert(before.node_calls(n) == old(self).node_calls(n));
                        assert(before.node_weights().dom().contains(n));
                        assert(self.node_weights()[n].calls() == before.node_weights()[n].calls().push(call));
                    } else {
                        assert(self.node_weights().dom().contains(n) == before.node_weights().dom().contains(n));
                        if before.node_weights().dom().contains(n) {
                            assert(self.node_weights()[n] == before.node_weights()[n]);
                        }
                        assert(self.node_calls(n) == before.node_calls(n));
                        assert(before.node_calls(n) == if t0.contains(NodeIndex { index: n }) {
                            old(self).node_calls(n).push(call)
                        } else {
                            old(self).node_calls(n)
                        });
                        assert(t1.contains(NodeIndex { index: n }) == t0.contains(NodeIndex { index: n })) by {
                            if t1.contains(NodeIndex { index: n }) {
                                let k = choose|k: int| 0 <= k < t1.len() && #[trigger] t1[k] == NodeIndex { index: n };
                                assert(k != i);
                                assert(t0[k] == NodeIndex { index: n });
                            }
                            if t0.contains(NodeIndex { index: n }) {
                                let k = choose|k: int| 0 <= k < t0.len() && #[trigger] t0[k] == NodeIndex { index: n };
                                assert(t1[k] == NodeIndex { index: n });
                            }
                        }
                    }
                }
            }
            i += 1;
        }
        proof {
            assert(order.take(order.len() as int) =~= order);
        }
    }

    /// Calls [`Processor::resize_buffers()`] on each node in the graph.
    pub fn resize_buffers(&mut self, sample_rate: Float, block_size: usize) -> (r: Result<(), GraphRunError>)
        requires
            old(self).wf(),
            !old(self).needs_alloc(),
        ensures
            r is Ok,
            final(self).wf(),
            final(self).edges() == old(self).edges(),
            final(self).nodes() == old(self).nodes(),
            final(self).param_names() == old(self).param_names(),
            forall|k: Seq<char>| #[trigger] final(self).param_of(k) == old(self).param_of(k),
            final(self).input_nodes() == old(self).input_nodes(),
            final(self).output_nodes() == old(self).output_nodes(),
            !final(self).needs_alloc(),
            final(self).visit_order().no_duplicates(),
            forall|n: u32| #[trigger] is_source(final(self).nodes(), final(self).edges(), n)
                ==> final(self).visit_order().contains(NodeIndex { index: n }),
            final(self).visits_in_order(),
            final(self).node_weights().dom() == old(self).node_weights().dom(),
            forall|n: u32| #[trigger] final(self).node_calls(n) == if is_live(final(self).nodes(), n) {
                old(self).node_calls(n).push(ProcessorCall::ResizeBuffers(sample_rate, block_size as nat))
            } else {
                old(self).node_calls(n)
            },
    {
        self.reset_visitor();
        let ghost mid = *self;
        self.visit_nodes(sample_rate, block_size, false);
        proof {
            assert forall|k: Seq<char>| #[trigger] self.param_of(k) == old(self).param_of(k) by {
                assert(self.params@ == mid.params@);
                assert(mid.param_of(k) == old(self).param_of(k));
            }
        }
        Ok(())
    }

    /// Calls [`Processor::prepare()`] on each node in the graph.
    pub fn prepare(&mut self) -> (r: Result<(), GraphRunError>)
        requires
            old(self).wf(),
        ensures
            r is Ok,
            final(self).wf(),
            final(self).edges() == old(self).edges(),
            final(self).nodes() == old(self).nodes(),
            final(self).param_names() == old(self).param_names(),
            forall|k: Seq<char>| #[trigger] final(self).param_of(k) == old(self).param_of(k),
            final(self).input_nodes() == old(self).input_nodes(),
            final(self).output_nodes() == old(self).output_nodes(),
            !final(self).needs_alloc(),
            forall|n: u32| #[trigger] is_source(final(self).nodes(), final(self).edges(), n)
                ==> final(self).visit_order().contains(NodeIndex { index: n }),
            final(self).visits_in_order(),
            final(self).node_weights().dom() == old(self).node_weights().dom(),
            forall|n: u32| #[trigger] final(self).node_calls(n) == if is_live(final(self).nodes(), n) {
                old(self).node_calls(n).push(ProcessorCall::Prepare)
            } else {
                old(self).node_calls(n)
            },
    {
        self.allocate_visitor();
        self.reset_visitor();
        let ghost mid = *self;
        let sr = Float::zero();
        self.visit_nodes(sr, 0, true);
        proof {
            assert forall|k: Seq<char>| #[trigger] self.param_of(k) == old(self).param_of(k) by {
                assert(self.params@ == mid.params@);
                assert(mid.param_of(k) == old(self).param_of(k));
            }
        }
        Ok(())
    }
}

/// Connecting the same output to the same input twice gives the edges of connecting once.
pub proof fn lemma_connect_idempotent(set: Set<(u32, u32, u32, u32)>, s: u32, so: u32, t: u32, ti: u32)
    ensures
        connect_result(connect_result(set, s, so, t, ti), s, so, t, ti) == connect_result(set, s, so, t, ti),
{
    let once = connect_result(set, s, so, t, ti);
    assert(connect_result(once, s, so, t, ti) =~= once);
}

/// After a connection, the connected input has exactly one edge: the new one; every edge
/// into another input is kept.
pub proof fn lemma_connect_single_input(set: Set<(u32, u32, u32, u32)>, s: u32, so: u32, t: u32, ti: u32)
    ensures
        connect_result(set, s, so, t, ti).contains((s, t, so, ti)),
        forall|x: (u32, u32, u32, u32)| #[trigger] connect_result(set, s, so, t, ti).contains(x) && x.1 == t && x.3 == ti
            ==> x == (s, t, so, ti),
        forall|x: (u32, u32, u32, u32)| #[trigger] set.contains(x) && !(x.1 == t && x.3 == ti)
            ==> connect_result(set, s, so, t, ti).contains(x),
{
}

/// Disconnecting what was connected to a free input gives back the edges of before.
pub proof fn lemma_disconnect_undoes_connect(set: Set<(u32, u32, u32, u32)>, s: u32, so: u32, t: u32, ti: u32)
    requires
        forall|x: (u32, u32, u32, u32)| #[trigger] set.contains(x) ==> !(x.1 == t && x.3 == ti),
    ensures
        connect_result(set, s, so, t, ti).remove((s, t, so, ti)) == set,
{
    assert(connect_result(set, s, so, t, ti).remove((s, t, so, ti)) =~= set);
}

/// With current components, a node lies in a component of more than one node exactly when
/// another node of the graph reaches it and is reached from it: when it lies on a feedback loop.
pub proof fn lemma_in_scc_iff_cycle(g: Graph, n: NodeIndex)
    requires
        g.wf(),
        g.sccs_current(),
        g.has_node(n),
    ensures
        (exists|c: int| 0 <= c < g.scc_list().len() && (#[trigger] g.scc_list()[c]).len() > 1 && g.scc_list()[c].contains(n))
        <==> (exists|m: u32| #[trigger] is_live(g.nodes(), m) && m != n.index && mutually_reachable(g.edges(), n.index, m)),
{
    let l = g.scc_list().reverse();
    let len = g.scc_list().len();
    assert(is_scc_list(g.nodes(), g.edges(), l));
    assert(is_live(g.nodes(), n.index));
    if exists|c: int| 0 <= c < len && (#[trigger] g.scc_list()[c]).len() > 1 && g.scc_list()[c].contains(n) {
        let c = choose|c: int| 0 <= c < len && (#[trigger] g.scc_list()[c]).len() > 1 && g.scc_list()[c].contains(n);
        let comp = g.scc_list()[c];
        let lc = len - 1 - c;
        assert(l[lc] == comp);
        let k = choose|k: int| 0 <= k < comp.len() && comp[k] == n;
        let k2 = if k == 0 { 1int } else { 0int };
        let m = comp[k2];
        assert(l[lc][k2] == m && l[lc][k] == n);
        assert(m != n);
        assert(m.index != n.index);
        assert(is_live(g.nodes(), m.index));
        assert(mutually_reachable(g.edges(), l[lc][k].index, l[lc][k2].index));
        assert(is_live(g.nodes(), m.index) && m.index != n.index && mutually_reachable(g.edges(), n.index, m.index));
    }
    if exists|m: u32| #[trigger] is_live(g.nodes(), m) && m != n.index && mutually_reachable(g.edges(), n.index, m) {
        let m = choose|m: u32| #[trigger] is_live(g.nodes(), m) && m != n.index && mutually_reachable(g.edges(), n.index, m);
        let (c1, k1) = choose|c: int, k: int| 0 <= c < l.len() && 0 <= k < l[c].len() && #[trigger] l[c][k].index == n.index;
        let (c2, k2) = choose|c: int, k: int| 0 <= c < l.len() && 0 <= k < l[c].len() && #[trigger] l[c][k].index == m;
        assert(mutually_reachable(g.edges(), l[c1][k1].index, l[c2][k2].index));
        assert(c1 == c2);
        assert(k1 != k2);
        let c = len - 1 - c1;
        assert(g.scc_list()[c] == l[c1]);
        assert(l[c1][k1] == n);
        assert(g.scc_list()[c].len() > 1);
        assert(g.scc_list()[c][k1] == n);
        assert(g.scc_list()[c].contains(n));
    }
}

} // verus!
