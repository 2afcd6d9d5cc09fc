//! The directed graph of a project (a `petgraph` graph) and the two-way table
//! between node identifiers and graph indices (a `bimap` map), with the
//! contracts of the operations the library makes on them.
use vstd::prelude::*;
use petgraph::graph::{DiGraph, NodeIndex};
use petgraph::visit::EdgeRef;
use bimap::BiHashMap;

verus! {

#[verifier::external_type_specification]
#[verifier::external_body]
#[verifier::reject_recursive_types(N)]
#[verifier::reject_recursive_types(E)]
#[verifier::reject_recursive_types(Ty)]
#[verifier::reject_recursive_types(Ix)]
pub struct ExGraph<N, E, Ty, Ix>(petgraph::graph::Graph<N, E, Ty, Ix>);

#[verifier::external_type_specification]
#[verifier::external_body]
pub struct ExDirected(petgraph::Directed);

#[verifier::external_type_specification]
#[verifier::external_body]
#[verifier::reject_recursive_types(L)]
#[verifier::reject_recursive_types(R)]
#[verifier::reject_recursive_types(LS)]
#[verifier::reject_recursive_types(RS)]
pub struct ExBiHashMap<L, R, LS, RS>(bimap::BiHashMap<L, R, LS, RS>);

/// The graph of a project. Its weights can hold the (output, input)
/// properties of a link, but the project's graph is built with no data on its
/// nodes or edges (every edge weight is `None`).
pub type ProjectGraph = DiGraph<(), Option<(String, String)>>;

/// A two-way map between node identifiers and graph indices.
pub type IdIndexMap = BiHashMap<u128, usize>;

/// An edge as the contracts see it: source index, target index, and its
/// weight, by the text of the properties it holds, if any.
pub type EdgeV = (usize, usize, Option<(Seq<char>, Seq<char>)>);

/// An (output, input) pair of properties, by their text, if any.
pub open spec fn ports_view(p: Option<(String, String)>) -> Option<(Seq<char>, Seq<char>)> {
    match p {
        Some((a, b)) => Some((a@, b@)),
        None => None,
    }
}

/// The output property of an (output, input) pair.
pub open spec fn port_from(w: Option<(Seq<char>, Seq<char>)>) -> Seq<char> {
    match w {
        Some((a, _)) => a,
        None => Seq::empty(),
    }
}

/// The input property of an (output, input) pair.
pub open spec fn port_to(w: Option<(Seq<char>, Seq<char>)>) -> Seq<char> {
    match w {
        Some((_, b)) => b,
        None => Seq::empty(),
    }
}

/// Number of nodes of a graph; its nodes are the indices below it.
pub uninterp spec fn graph_node_count(g: ProjectGraph) -> nat;

/// The edges of a graph, in the order they were added.
pub uninterp spec fn graph_edges(g: ProjectGraph) -> Seq<EdgeV>;

/// The pairs of a two-way map, as a map from left to right values.
pub uninterp spec fn bimap_pairs(m: IdIndexMap) -> Map<u128, usize>;

/// The largest index a graph holds, plus one: `petgraph` stops at the
/// maximum of its 32-bit index type.
pub open spec fn index_limit() -> nat {
    0xFFFF_FFFFnat
}

/// A graph built within the limits of its index type.
pub open spec fn graph_in_limits(g: ProjectGraph) -> bool {
    graph_node_count(g) <= index_limit() && graph_edges(g).len() <= index_limit()
}

/// The outgoing edges of node `a` as (target, properties), most recently
/// added first.
pub open spec fn spec_out_edges(es: Seq<EdgeV>, a: usize) -> Seq<(usize, Option<(Seq<char>, Seq<char>)>)>
    decreases es.len(),
{
    if es.len() == 0 {
        Seq::empty()
    } else {
        let e = es.last();
        let rest = spec_out_edges(es.drop_last(), a);
        if e.0 == a {
            seq![(e.1, e.2)] + rest
        } else {
            rest
        }
    }
}

/// `o` lists each node of a graph of `n` nodes once, each before all its
/// successors along `es`.
pub open spec fn spec_is_topo_order(n: nat, es: Seq<EdgeV>, o: Seq<usize>) -> bool {
    &&& o.len() == n
    &&& forall|i: int| 0 <= i < o.len() ==> #[trigger] o[i] < n
    &&& forall|i: int, j: int| 0 <= i < j < o.len() ==> o[i] != o[j]
    &&& forall|k: int, i: int, j: int|
        #![trigger es[k], o[i], o[j]]
        0 <= k < es.len() && 0 <= i < o.len() && 0 <= j < o.len() && o[i] == es[k].0 && o[j] == es[k].1 ==> i < j
}

/// The two-way map after `insert(l, r)`: the pairs holding `l` on the left or
/// `r` on the right are removed, then `(l, r)` is added.
pub open spec fn spec_bimap_insert(m: Map<u128, usize>, l: u128, r: usize) -> Map<u128, usize> {
    Map::new(|k: u128| k == l || (m.contains_key(k) && m[k] != r), |k: u128| if k == l { r } else { m[k] })
}

/// `DiGraph::new()`: a graph with no nodes and no edges.
#[verifier::external_body]
pub(crate) fn graph_new() -> (g: ProjectGraph)
    ensures
        graph_node_count(g) == 0,
        graph_edges(g) == Seq::<EdgeV>::empty(),
{
    DiGraph::new()
}

/// `Graph::add_node`: appends a node and returns its index, which is the
/// number of nodes before the call. It panics when that index reaches the
/// maximum of the index type, which `requires` leaves out.
#[verifier::external_body]
pub(crate) fn graph_add_node(g: &mut ProjectGraph) -> (i: usize)
    requires
        graph_node_count(*old(g)) < index_limit(),
    ensures
        i == graph_node_count(*old(g)),
        graph_node_count(*final(g)) == graph_node_count(*old(g)) + 1,
        graph_edges(*final(g)) == graph_edges(*old(g)),
{
    g.add_node(()).index()
}

/// `Graph::add_edge`: appends an edge from node `a` to node `b` with the given
/// weight. It panics when either node is missing or the edge index reaches the
/// maximum of the index type, which `requires` leaves out.
#[verifier::external_body]
pub(crate) fn graph_add_edge(g: &mut ProjectGraph, a: usize, b: usize, w: Option<(String, String)>)
    requires
        a < graph_node_count(*old(g)),
        b < graph_node_count(*old(g)),
        graph_node_count(*old(g)) <= index_limit(),
        graph_edges(*old(g)).len() < index_limit(),
    ensures
        graph_node_count(*final(g)) == graph_node_count(*old(g)),
        graph_edges(*final(g)) == graph_edges(*old(g)).push((a, b, ports_view(w))),
{
    g.add_edge(NodeIndex::new(a), NodeIndex::new(b), w);
}

/// `Graph::edges_directed(a, Outgoing)`, each edge taken as its target and a
/// copy of its weight. `petgraph` keeps a node's outgoing edges in a list to
/// whose front each new edge goes, so they come most recent first.
#[verifier::external_body]
pub(crate) fn graph_out_edges(g: &ProjectGraph, a: usize) -> (r: Vec<(usize, Option<(String, String)>)>)
    requires
        a < graph_node_count(*g),
        graph_in_limits(*g),
    ensures
        r@.len() == spec_out_edges(graph_edges(*g), a).len(),
        forall|i: int| 0 <= i < r@.len() ==> (#[trigger] r@[i]).0 == spec_out_edges(graph_edges(*g), a)[i].0
            && ports_view(r@[i].1) == spec_out_edges(graph_edges(*g), a)[i].1,
{
    g.edges_directed(NodeIndex::new(a), petgraph::Direction::Outgoing).map(|e| (e.target().index(), e.weight().clone())).collect()
}

/// The order in which `petgraph::algo::toposort` lists the nodes of a graph
/// built by adding `n` nodes and the edges `es` in that order, or `None` when
/// it reports a cycle.
pub uninterp spec fn toposort_order(n: nat, es: Seq<EdgeV>) -> Option<Seq<usize>>;

/// `petgraph::algo::toposort`: on a graph without cycles, the nodes in an
/// order that puts each before its successors; on a graph with a cycle (self
/// loops included), its `Cycle` error, given here as `None`. Its depth-first
/// search depends on the graph alone, so the order is named by
/// `toposort_order`; which topological order that is, is left unsaid.
#[verifier::external_body]
pub(crate) fn graph_toposort(g: &ProjectGraph) -> (r: Option<Vec<usize>>)
    requires
        graph_in_limits(*g),
    ensures
        match r {
            Some(o) => toposort_order(graph_node_count(*g), graph_edges(*g)) == Some(o@)
                && spec_is_topo_order(graph_node_count(*g), graph_edges(*g), o@),
            None => toposort_order(graph_node_count(*g), graph_edges(*g)) == None::<Seq<usize>>
                && forall|o: Seq<usize>| !spec_is_topo_order(graph_node_count(*g), graph_edges(*g), o),
        },
{
    match petgraph::algo::toposort(g, None) {
        Ok(v) => Some(v.iter().map(|i| i.index()).collect()),
        Err(_) => None,
    }
}

/// `BiHashMap::new()`: a map with no pairs.
#[verifier::external_body]
pub(crate) fn bimap_new() -> (m: IdIndexMap)
    ensures
        bimap_pairs(m) =~= Map::empty(),
{
    BiHashMap::new()
}

/// `BiHashMap::insert(l, r)`: removes the pair with `l` on the left and the
/// pair with `r` on the right, then adds `(l, r)`.
#[verifier::external_body]
pub(crate) fn bimap_insert(m: &mut IdIndexMap, l: u128, r: usize)
    ensures
        bimap_pairs(*final(m)) == spec_bimap_insert(bimap_pairs(*old(m)), l, r),
{
    m.insert(l, r);
}

/// `BiHashMap::get_by_left`: the right value paired with `l`, if any.
#[verifier::external_body]
pub(crate) fn bimap_get_by_left(m: &IdIndexMap, l: u128) -> (r: Option<usize>)
    ensures
        r == (if bimap_pairs(*m).contains_key(l) { Some(bimap_pairs(*m)[l]) } else { None::<usize> }),
{
    m.get_by_left(&l).copied()
}

/// `BiHashMap::get_by_right`: the left value paired with `r`, if any.
#[verifier::external_body]
pub(crate) fn bimap_get_by_right(m: &IdIndexMap, r: usize) -> (l: Option<u128>)
    ensures
        match l {
            Some(k) => bimap_pairs(*m).contains_key(k) && bimap_pairs(*m)[k] == r,
            None => forall|k: u128| bimap_pairs(*m).contains_key(k) ==> bimap_pairs(*m)[k] != r,
        },
{
    m.get_by_right(&r).copied()
}

} // verus!
