//! The links of the editing graph, and the graph they form with the nodes.
use vstd::prelude::*;
use crate::ID;
use crate::assoc::{key_index, has_key, assoc_get, assoc_insert, keys_unique, lemma_key_index, lemma_key_index_unique, id_map_view, id_index, id_insert, named_view, named_get, named_insert, spec_named_get};
use crate::cache::{Cache, spec_cache_get};
use crate::graph::{ProjectGraph, IdIndexMap, EdgeV, graph_new, graph_add_node, graph_add_edge, graph_node_count, graph_edges, graph_in_limits, index_limit, bimap_new, bimap_insert, bimap_get_by_left, bimap_get_by_right, bimap_pairs, spec_bimap_insert, spec_out_edges, spec_is_topo_order, port_from, port_to, graph_toposort, toposort_order};
use crate::clip::{ClipIdentifier, ClipType};
use crate::global::{id_to_string, uuid_hyphenated};
use crate::node::{NodeValue, PropertyValue, PropertyValueV, props_view, spec_prop_get, get_property, get_clip_property, PipedType, PipedTypeV, NodeTypeOutput, NodeTypeOutputV, InputOrOutput, outputs_view};
use crate::nodes::{spec_registered, spec_node_outputs};
use crate::nodes::{media_import_node, output_node};
use crate::store::{Store, StoreV};
use crate::text::{str_eq, cat, cat3, owned};

verus! {

/// One end of a link: a node and one of its properties.
#[derive(Debug)]
pub struct LinkEndpoint {
    pub node_id: ID,
    pub property: String,
}

/// A link from an output of one node to an input of another.
#[derive(Debug)]
pub struct Link {
    pub from: LinkEndpoint,
    pub to: LinkEndpoint,
}

/// The links of the graph.
#[derive(Debug)]
pub struct Pipeline {
    pub links: Vec<Link>,
}

impl Clone for LinkEndpoint {
    fn clone(&self) -> (r: Self)
        ensures
            r == *self,
    {
        LinkEndpoint { node_id: self.node_id, property: self.property.clone() }
    }
}

impl Clone for Link {
    fn clone(&self) -> (r: Self)
        ensures
            r == *self,
    {
        Link { from: self.from.clone(), to: self.to.clone() }
    }
}

impl View for Pipeline {
    type V = Seq<Link>;

    open spec fn view(&self) -> Seq<Link> {
        self.links@
    }
}

impl Clone for Pipeline {
    fn clone(&self) -> (r: Self)
        ensures
            r@ == self@,
    {
        let l = self.links.clone();
        assert(l@ =~= self.links@);
        Pipeline { links: l }
    }
}

pub open spec fn spec_endpoint_id(e: LinkEndpoint) -> Seq<char> {
    uuid_hyphenated(e.node_id) + "."@ + e.property@
}

pub open spec fn spec_link_id(l: Link) -> Seq<char> {
    spec_endpoint_id(l.from) + "-"@ + spec_endpoint_id(l.to)
}

impl LinkEndpoint {
    /// `<node id>.<property>`.
    pub fn get_id(&self) -> (r: String)
        ensures
            r@ == spec_endpoint_id(*self),
    {
        let id = id_to_string(self.node_id);
        cat3(id.as_str(), ".", self.property.as_str())
    }

    /// Whether two endpoints name the same node and property.
    pub fn same(&self, other: &LinkEndpoint) -> (r: bool)
        ensures
            r == (self.node_id == other.node_id && self.property@ == other.property@),
    {
        self.node_id == other.node_id && str_eq(self.property.as_str(), other.property.as_str())
    }
}

impl Link {
    /// `<from id>-<to id>`.
    pub fn get_id(&self) -> (r: String)
        ensures
            r@ == spec_link_id(*self),
    {
        let f = self.from.get_id();
        let t = self.to.get_id();
        cat3(f.as_str(), "-", t.as_str())
    }
}

impl Pipeline {
    /// No links.
    pub fn new() -> (r: Self)
        ensures
            r@ == Seq::<Link>::empty(),
    {
        Pipeline { links: Vec::new() }
    }
}

/// Index of the last occurrence of `k` in `ids`, or -1.
pub open spec fn spec_index_of(ids: Seq<ID>, k: ID) -> int
    decreases ids.len(),
{
    if ids.len() == 0 {
        -1
    } else if ids.last() == k {
        ids.len() - 1
    } else {
        spec_index_of(ids.drop_last(), k)
    }
}

pub proof fn lemma_index_of(ids: Seq<ID>, k: ID)
    ensures
        -1 <= spec_index_of(ids, k) < ids.len(),
        spec_index_of(ids, k) >= 0 ==> ids[spec_index_of(ids, k)] == k,
        forall|j: int| spec_index_of(ids, k) < j < ids.len() ==> ids[j] != k,
    decreases ids.len(),
{
    if ids.len() > 0 {
        lemma_index_of(ids.drop_last(), k);
        assert forall|j: int| spec_index_of(ids, k) < j < ids.len() implies ids[j] != k by {
            if j < ids.len() - 1 {
                assert(ids[j] == ids.drop_last()[j]);
            }
        }
    }
}

/// The graph index of each node identifier: the index of its last node.
pub open spec fn spec_node_index_map(ids: Seq<ID>) -> Map<ID, usize> {
    Map::new(|k: ID| spec_index_of(ids, k) >= 0, |k: ID| spec_index_of(ids, k) as usize)
}

/// The identifiers of a store's nodes, in order: node `i` of the graph
/// stands for the node with identifier `spec_node_ids(s)[i]`.
pub open spec fn spec_node_ids(s: StoreV) -> Seq<ID> {
    s.nodes.map_values(|e: (ID, NodeValue)| e.0)
}

/// The composited clip an output node renders into, or why it has none.
pub open spec fn spec_output_clip(n: NodeValue) -> Result<ID, Seq<char>> {
    match spec_prop_get(n.properties, output_node::INPUT_CLIP@) {
        None => Err("Output node with no clip detected!"@),
        Some(PropertyValueV::Clip(c)) => if c.clip_type != ClipType::Composited {
            Err("Clip identifier for output node not valid (must be composited clip)!"@)
        } else {
            Ok(c.id)
        },
        Some(_) => Err("Clip identifier for output node not valid!"@),
    }
}

/// The graph index of the output node of each composited clip, as the
/// two-way map builds it (the last output node of a clip wins), or the first
/// error met.
pub open spec fn spec_graph_outputs(ns: Seq<(ID, NodeValue)>) -> Result<Map<ID, usize>, Seq<char>>
    decreases ns.len(),
{
    if ns.len() == 0 {
        Ok(Map::empty())
    } else {
        match spec_graph_outputs(ns.drop_last()) {
            Err(e) => Err(e),
            Ok(m) => if ns.last().1.node_type == output_node::IDENTIFIER@ {
                match spec_output_clip(ns.last().1) {
                    Err(e) => Err(e),
                    Ok(cid) => Ok(spec_bimap_insert(m, cid, (ns.len() - 1) as usize)),
                }
            } else {
                Ok(m)
            },
        }
    }
}

/// The edges from output nodes into the imports of their composited clips,
/// in the order of the importing nodes, or the first error met.
pub open spec fn spec_graph_imports(ns: Seq<(ID, NodeValue)>, nmap: Map<ID, usize>, m: Map<ID, usize>) -> Result<Seq<EdgeV>, Seq<char>>
    decreases ns.len(),
{
    if ns.len() == 0 {
        Ok(Seq::empty())
    } else {
        match spec_graph_imports(ns.drop_last(), nmap, m) {
            Err(e) => Err(e),
            Ok(es) => {
                let n = ns.last();
                if n.1.node_type == media_import_node::IDENTIFIER@ {
                    match spec_prop_get(n.1.properties, media_import_node::INPUT_CLIP@) {
                        None => Err("Input node with no clip detected!"@),
                        Some(PropertyValueV::Clip(c)) => if c.clip_type == ClipType::Composited {
                            if m.contains_key(c.id) {
                                Ok(es.push((m[c.id], nmap[n.0], None::<(Seq<char>, Seq<char>)>)))
                            } else {
                                Err("Reference to composited clip with no output!"@)
                            }
                        } else {
                            Ok(es)
                        },
                        Some(_) => Err("Clip identifier for input node not valid!"@),
                    }
                } else {
                    Ok(es)
                }
            },
        }
    }
}

/// The edges of the links (carrying no data), or an error when a link names
/// a missing node.
pub open spec fn spec_link_edges(nmap: Map<ID, usize>, ls: Seq<Link>) -> Result<Seq<EdgeV>, Seq<char>>
    decreases ls.len(),
{
    if ls.len() == 0 {
        Ok(Seq::empty())
    } else {
        match spec_link_edges(nmap, ls.drop_last()) {
            Err(e) => Err(e),
            Ok(es) => {
                let l = ls.last();
                if !nmap.contains_key(l.from.node_id) || !nmap.contains_key(l.to.node_id) {
                    Err("Link contains reference to non-existent node"@)
                } else {
                    Ok(es.push((nmap[l.from.node_id], nmap[l.to.node_id], None::<(Seq<char>, Seq<char>)>)))
                }
            },
        }
    }
}

/// The edges of a project's graph: the edges from output nodes to the imports
/// of their clips, then those of the links; or the first problem found.
pub open spec fn spec_get_graph(s: StoreV) -> Result<Seq<EdgeV>, Seq<char>> {
    let nmap = spec_node_index_map(spec_node_ids(s));
    match spec_graph_outputs(s.nodes) {
        Err(e) => Err(e),
        Ok(m) => match spec_graph_imports(s.nodes, nmap, m) {
            Err(e) => Err(e),
            Ok(e1) => match spec_link_edges(nmap, s.links) {
                Err(e) => Err(e),
                Ok(e2) => Ok(e1 + e2),
            },
        },
    }
}

/// The output-node map holds indices of nodes.
proof fn lemma_outputs_bounded(ns: Seq<(ID, NodeValue)>)
    ensures
        spec_graph_outputs(ns) matches Ok(m) ==> forall|k: ID| m.contains_key(k) ==> #[trigger] m[k] < ns.len(),
    decreases ns.len(),
{
    if ns.len() > 0 {
        lemma_outputs_bounded(ns.drop_last());
    }
}

proof fn lemma_outputs_err(ns: Seq<(ID, NodeValue)>, n: int)
    requires
        0 <= n <= ns.len(),
        spec_graph_outputs(ns.take(n)) is Err,
    ensures
        spec_graph_outputs(ns) == spec_graph_outputs(ns.take(n)),
    decreases ns.len() - n,
{
    if n < ns.len() {
        assert(ns.take(n + 1).drop_last() =~= ns.take(n));
        lemma_outputs_err(ns, n + 1);
    } else {
        assert(ns.take(n) =~= ns);
    }
}

proof fn lemma_imports_err(ns: Seq<(ID, NodeValue)>, nmap: Map<ID, usize>, m: Map<ID, usize>, n: int)
    requires
        0 <= n <= ns.len(),
        spec_graph_imports(ns.take(n), nmap, m) is Err,
    ensures
        spec_graph_imports(ns, nmap, m) == spec_graph_imports(ns.take(n), nmap, m),
    decreases ns.len() - n,
{
    if n < ns.len() {
        assert(ns.take(n + 1).drop_last() =~= ns.take(n));
        lemma_imports_err(ns, nmap, m, n + 1);
    } else {
        assert(ns.take(n) =~= ns);
    }
}

proof fn lemma_links_err(nmap: Map<ID, usize>, ls: Seq<Link>, n: int)
    requires
        0 <= n <= ls.len(),
        spec_link_edges(nmap, ls.take(n)) is Err,
    ensures
        spec_link_edges(nmap, ls) == spec_link_edges(nmap, ls.take(n)),
    decreases ls.len() - n,
{
    if n < ls.len() {
        assert(ls.take(n + 1).drop_last() =~= ls.take(n));
        lemma_links_err(nmap, ls, n + 1);
    } else {
        assert(ls.take(n) =~= ls);
    }
}

/// Appending an identifier to the node list maps it to the new index and
/// keeps the others.
proof fn lemma_node_index_map_push(ids: Seq<ID>, k: ID)
    requires
        ids.len() < index_limit(),
    ensures
        spec_node_index_map(ids.push(k)) =~= spec_bimap_insert(spec_node_index_map(ids), k, ids.len() as usize),
{
    let m = spec_node_index_map(ids);
    let p = ids.push(k);
    assert(p.drop_last() =~= ids);
    assert forall|x: ID| m.contains_key(x) implies m[x] < ids.len() by {
        lemma_index_of(ids, x);
    }
    assert forall|x: ID| x != k implies spec_index_of(p, x) == spec_index_of(ids, x) by {}
    assert(spec_index_of(p, k) == ids.len());
    let l = spec_node_index_map(p);
    let r = spec_bimap_insert(m, k, ids.len() as usize);
    assert forall|x: ID| #[trigger] l.contains_key(x) <==> r.contains_key(x) by {
        lemma_index_of(ids, x);
    }
    assert forall|x: ID| #[trigger] l.contains_key(x) implies l[x] == r[x] by {
        lemma_index_of(ids, x);
    }
    assert(l =~= r);
}

impl Pipeline {
    /// The directed graph of the project (`self` is the project's pipeline)
    /// and the two-way map between node identifiers and graph indices; or the
    /// first problem found: an output node without a valid composited clip,
    /// an import without a valid clip or of a composited clip that no output
    /// node renders, or a link to a missing node. Node `i` of the graph is the
    /// store's node `i`; its edges are those of `spec_get_graph`, and no data
    /// is supplied to the nodes or edges.
    pub fn get_graph(&self, store: &Store) -> (r: Result<(ProjectGraph, IdIndexMap), String>)
        requires
            store.nodes.len() + self.links.len() < index_limit(),
        ensures
            match r {
                Ok((g, m)) => {
                    &&& spec_get_graph(StoreV { links: self.links@, ..store@ }) == Ok::<Seq<EdgeV>, Seq<char>>(graph_edges(g))
                    &&& graph_node_count(g) == store.nodes.len()
                    &&& forall|k: int| 0 <= k < graph_edges(g).len() ==> (#[trigger] graph_edges(g)[k]).2 is None
                    &&& graph_in_limits(g)
                    &&& bimap_pairs(m) == spec_node_index_map(spec_node_ids(StoreV { links: self.links@, ..store@ }))
                },
                Err(e) => spec_get_graph(StoreV { links: self.links@, ..store@ }) == Err::<Seq<EdgeV>, Seq<char>>(e@),
            },
    {
        let ghost sv = StoreV { links: self.links@, ..store@ };
        let ghost ns = store@.nodes;
        let ghost ids = spec_node_ids(sv);
        let mut graph = graph_new();
        let mut node_id_to_index = bimap_new();
        let mut composited_clip_to_index = bimap_new();
        // Nodes, and the output node of each composited clip.
        let mut i: usize = 0;
        while i < store.nodes.len()
            invariant
                i <= store.nodes.len(),
                store.nodes.len() + self.links.len() < index_limit(),
                ns == id_map_view(store.nodes@),
                sv == (StoreV { links: self.links@, ..store@ }),
                ids == spec_node_ids(sv),
                graph_node_count(graph) == i,
                graph_edges(graph) == Seq::<EdgeV>::empty(),
                bimap_pairs(node_id_to_index) == spec_node_index_map(ids.take(i as int)),
                spec_graph_outputs(ns.take(i as int)) == Ok::<Map<ID, usize>, Seq<char>>(bimap_pairs(composited_clip_to_index)),
            decreases store.nodes.len() - i,
        {
            proof {
                assert(ns.take(i + 1).drop_last() =~= ns.take(i as int));
                assert(ns.take(i + 1).last() == ns[i as int]);
                assert(ns[i as int] == (store.nodes@[i as int].0, store.nodes@[i as int].1@));
                assert(ids.take(i + 1) =~= ids.take(i as int).push(store.nodes@[i as int].0));
                lemma_node_index_map_push(ids.take(i as int), store.nodes@[i as int].0);
                assert(ids.take(i as int).len() == i);
            }
            let idx = graph_add_node(&mut graph);
            bimap_insert(&mut node_id_to_index, store.nodes[i].0, idx);
            let node = &store.nodes[i].1;
            if str_eq(node.node_type.as_str(), output_node::IDENTIFIER) {
                match get_property(&node.properties, output_node::INPUT_CLIP) {
                    None => {
                        proof {
                            lemma_outputs_err(ns, i + 1);
                        }
                        return Err(owned("Output node with no clip detected!"));
                    },
                    Some(PropertyValue::Clip(c)) => {
                        if c.clip_type != ClipType::Composited {
                            proof {
                                lemma_outputs_err(ns, i + 1);
                            }
                            return Err(owned("Clip identifier for output node not valid (must be composited clip)!"));
                        }
                        bimap_insert(&mut composited_clip_to_index, c.id, idx);
                    },
                    Some(_) => {
                        proof {
                            lemma_outputs_err(ns, i + 1);
                        }
                        return Err(owned("Clip identifier for output node not valid!"));
                    },
                }
            }
            i = i + 1;
        }
        proof {
            assert(ns.take(store.nodes.len() as int) =~= ns);
            assert(ids.take(store.nodes.len() as int) =~= ids);
            lemma_outputs_bounded(ns);
        }
        let ghost nmap = spec_node_index_map(ids);
        let ghost cmap = bimap_pairs(composited_clip_to_index);
        // Edges from output nodes into imports of their composited clips.
        let mut k: usize = 0;
        while k < store.nodes.len()
            invariant
                k <= store.nodes.len(),
                store.nodes.len() + self.links.len() < index_limit(),
                ns == id_map_view(store.nodes@),
                sv == (StoreV { links: self.links@, ..store@ }),
                ids == spec_node_ids(sv),
                sv.nodes == ns,
                nmap == spec_node_index_map(ids),
                bimap_pairs(node_id_to_index) == nmap,
                cmap == bimap_pairs(composited_clip_to_index),
                spec_graph_outputs(ns) == Ok::<Map<ID, usize>, Seq<char>>(cmap),
                forall|c: ID| cmap.contains_key(c) ==> #[trigger] cmap[c] < ns.len(),
                graph_node_count(graph) == store.nodes.len(),
                graph_edges(graph).len() <= k,
                spec_graph_imports(ns.take(k as int), nmap, cmap) == Ok::<Seq<EdgeV>, Seq<char>>(graph_edges(graph)),
            decreases store.nodes.len() - k,
        {
            proof {
                assert(ns.take(k + 1).drop_last() =~= ns.take(k as int));
                assert(ns.take(k + 1).last() == ns[k as int]);
                assert(ns[k as int] == (store.nodes@[k as int].0, store.nodes@[k as int].1@));
            }
            let node = &store.nodes[k].1;
            if str_eq(node.node_type.as_str(), media_import_node::IDENTIFIER) {
                match get_property(&node.properties, media_import_node::INPUT_CLIP) {
                    None => {
                        proof {
                            lemma_imports_err(ns, nmap, cmap, k + 1);
                        }
                        return Err(owned("Input node with no clip detected!"));
                    },
                    Some(PropertyValue::Clip(c)) => {
                        if c.clip_type == ClipType::Composited {
                            match bimap_get_by_left(&composited_clip_to_index, c.id) {
                                None => {
                                    proof {
                                        lemma_imports_err(ns, nmap, cmap, k + 1);
                                    }
                                    return Err(owned("Reference to composited clip with no output!"));
                                },
                                Some(from) => {
                                    proof {
                                        lemma_index_of(ids, store.nodes@[k as int].0);
                                        assert(ids[k as int] == store.nodes@[k as int].0);
                                    }
                                    match bimap_get_by_left(&node_id_to_index, store.nodes[k].0) {
                                        Some(to) => {
                                            graph_add_edge(&mut graph, from, to, None);
                                        },
                                        None => {},
                                    }
                                },
                            }
                        }
                    },
                    Some(_) => {
                        proof {
                            lemma_imports_err(ns, nmap, cmap, k + 1);
                        }
                        return Err(owned("Clip identifier for input node not valid!"));
                    },
                }
            }
            k = k + 1;
        }
        proof {
            assert(ns.take(store.nodes.len() as int) =~= ns);
        }
        let ghost e1 = graph_edges(graph);
        // Edges of the links.
        let mut j: usize = 0;
        while j < self.links.len()
            invariant
                j <= self.links.len(),
                store.nodes.len() + self.links.len() < index_limit(),
                sv == (StoreV { links: self.links@, ..store@ }),
                ids == spec_node_ids(sv),
                nmap == spec_node_index_map(ids),
                bimap_pairs(node_id_to_index) == nmap,
                spec_graph_outputs(sv.nodes) == Ok::<Map<ID, usize>, Seq<char>>(cmap),
                spec_graph_imports(sv.nodes, nmap, cmap) == Ok::<Seq<EdgeV>, Seq<char>>(e1),
                e1.len() <= store.nodes.len(),
                graph_node_count(graph) == store.nodes.len(),
                ids.len() == store.nodes.len(),
                spec_link_edges(nmap, self.links@.take(j as int)) matches Ok(le) && graph_edges(graph) == e1 + le && le.len() == j,
            decreases self.links.len() - j,
        {
            proof {
                assert(self.links@.take(j + 1).drop_last() =~= self.links@.take(j as int));
                assert(self.links@.take(j + 1).last() == self.links@[j as int]);
            }
            let l = &self.links[j];
            let f = bimap_get_by_left(&node_id_to_index, l.from.node_id);
            let t = bimap_get_by_left(&node_id_to_index, l.to.node_id);
            match (f, t) {
                (Some(f), Some(t)) => {
                    proof {
                        lemma_index_of(ids, l.from.node_id);
                        lemma_index_of(ids, l.to.node_id);
                    }
                    graph_add_edge(&mut graph, f, t, None);
                    proof {
                        let le = spec_link_edges(nmap, self.links@.take(j as int))->Ok_0;
                        assert(graph_edges(graph) =~= e1 + le.push((f, t, None::<(Seq<char>, Seq<char>)>)));
                    }
                },
                _ => {
                    proof {
                        lemma_links_err(nmap, self.links@, j + 1);
                    }
                    return Err(owned("Link contains reference to non-existent node"));
                },
            }
            j = j + 1;
        }
        proof {
            assert(self.links@.take(self.links.len() as int) =~= self.links@);
            assert(spec_get_graph(sv) == Ok::<Seq<EdgeV>, Seq<char>>(graph_edges(graph)));
            lemma_graph_edges(sv, graph_edges(graph));
        }
        Ok((graph, node_id_to_index))
    }
}


/// What generating the pipeline finds of one node: the media piped into it,
/// by input name, and its outputs.
#[derive(Debug)]
pub struct NodeIoData {
    pub piped_inputs: Vec<(String, PipedType)>,
    pub outputs: Vec<NodeTypeOutput>,
}

/// The value of a node's data.
pub struct NodeIoDataV {
    pub piped_inputs: Seq<(Seq<char>, PipedTypeV)>,
    pub outputs: Seq<NodeTypeOutputV>,
}

impl View for NodeIoData {
    type V = NodeIoDataV;

    open spec fn view(&self) -> NodeIoDataV {
        NodeIoDataV { piped_inputs: named_view(self.piped_inputs@), outputs: outputs_view(self.outputs@) }
    }
}

/// The result of generating the pipeline: the order in which the nodes were
/// visited (by graph index, which is the node's position in the store), the
/// data found for each node by its id, and the type of each composited clip
/// that an output node renders.
#[derive(Debug)]
pub struct GeneratedPipeline {
    pub order: Vec<usize>,
    pub node_type_data: Vec<(ID, NodeIoData)>,
    pub composited_clip_data: Vec<(ID, PipedType)>,
}

/// The state of the walk through the graph: the media piped so far into each
/// node (by graph index), the data of the nodes visited, and the types of the
/// composited clips found.
pub struct PropagationV {
    pub piped: Seq<Seq<(Seq<char>, PipedTypeV)>>,
    pub data: Seq<(ID, NodeIoDataV)>,
    pub composited: Seq<(ID, PipedTypeV)>,
}

/// The output named `name` (the last one), if any.
pub open spec fn spec_output_named(os: Seq<NodeTypeOutputV>, name: Seq<char>) -> Option<NodeTypeOutputV>
    decreases os.len(),
{
    if os.len() == 0 {
        None
    } else if os.last().name == name {
        Some(os.last())
    } else {
        spec_output_named(os.drop_last(), name)
    }
}

/// Pipes one output of a node along one outgoing edge: the target's input
/// gets the type of the output, the target's id, and the cached file of the
/// output if the node has a cache entry.
pub open spec fn spec_pipe_edge(
    piped: Seq<Seq<(Seq<char>, PipedTypeV)>>,
    ids: Seq<ID>,
    outs: Seq<NodeTypeOutputV>,
    centry: Option<Seq<(Seq<char>, ID)>>,
    oe: (usize, Option<(Seq<char>, Seq<char>)>),
) -> Seq<Seq<(Seq<char>, PipedTypeV)>> {
    let t = oe.0;
    let fp = port_from(oe.1);
    let tp = port_to(oe.1);
    let p = PipedTypeV {
        stream_type: spec_output_named(outs, fp)->0.property_type,
        node_id: ids[t as int],
        property_name: tp,
        io: InputOrOutput::Input,
        cache_id: match centry {
            Some(m) => Some(assoc_get(m, fp)),
            None => None,
        },
    };
    piped.update(t as int, assoc_insert(piped[t as int], tp, p))
}

/// Pipes a node's outputs along its outgoing links, in the order given.
pub open spec fn spec_pipe_out(
    piped: Seq<Seq<(Seq<char>, PipedTypeV)>>,
    ids: Seq<ID>,
    outs: Seq<NodeTypeOutputV>,
    centry: Option<Seq<(Seq<char>, ID)>>,
    oes: Seq<(usize, Option<(Seq<char>, Seq<char>)>)>,
) -> Seq<Seq<(Seq<char>, PipedTypeV)>>
    decreases oes.len(),
{
    if oes.len() == 0 {
        piped
    } else {
        spec_pipe_edge(spec_pipe_out(piped, ids, outs, centry, oes.drop_last()), ids, outs, centry, oes.last())
    }
}

/// Visits node `x`: finds its outputs from what is piped into it; then an
/// output node records the type of its composited clip, and any other node
/// pipes its outputs to its successors.
pub open spec fn spec_visit(s: StoreV, cache: Seq<(ID, Seq<(Seq<char>, ID)>)>, st: PropagationV, x: usize) -> Result<PropagationV, Seq<char>> {
    let node = s.nodes[x as int].1;
    let piped = st.piped[x as int];
    match spec_node_outputs(node.node_type, node.properties, piped, st.composited, s.source) {
        Err(e) => Err("Could not find IO data for node "@ + uuid_hyphenated(node.id) + ": "@ + e),
        Ok(outs) => {
            let data = assoc_insert(st.data, node.id, NodeIoDataV { piped_inputs: piped, outputs: outs });
            if node.node_type == output_node::IDENTIFIER@ {
                match spec_named_get(piped, output_node::INPUT_MEDIA@) {
                    None => Ok(PropagationV { data, ..st }),
                    Some(t) => Ok(PropagationV { data, composited: assoc_insert(st.composited, spec_output_clip(node)->Ok_0, t), ..st }),
                }
            } else {
                Ok(PropagationV {
                    data,
                    piped: spec_pipe_out(st.piped, spec_node_ids(s), outs, spec_cache_get(cache, node.id),
                        spec_links_out(spec_node_index_map(spec_node_ids(s)), s.links, spec_node_ids(s)[x as int])),
                    ..st
                })
            }
        },
    }
}

/// Visits the nodes in the order `o`, from nothing piped anywhere; or the
/// first error met.
pub open spec fn spec_propagate(s: StoreV, cache: Seq<(ID, Seq<(Seq<char>, ID)>)>, o: Seq<usize>) -> Result<PropagationV, Seq<char>>
    decreases o.len(),
{
    if o.len() == 0 {
        Ok(PropagationV {
            piped: Seq::new(s.nodes.len(), |i: int| Seq::<(Seq<char>, PipedTypeV)>::empty()),
            data: Seq::empty(),
            composited: Seq::empty(),
        })
    } else {
        match spec_propagate(s, cache, o.drop_last()) {
            Err(e) => Err(e),
            Ok(st) => spec_visit(s, cache, st, o.last()),
        }
    }
}

/// The inputs on which generating the pipeline does not stop short: every
/// node's type is registered; every link leaves the output `output` of its
/// node (the one output each registered type has), or leaves an output node;
/// and a node with a cache entry has one for `output`.
pub open spec fn spec_generate_safe(s: StoreV, cache: Seq<(ID, Seq<(Seq<char>, ID)>)>) -> bool {
    &&& forall|i: int| 0 <= i < s.nodes.len() ==> spec_registered(#[trigger] s.nodes[i].1.node_type)
    &&& forall|j: int, i: int|
        #![trigger s.links[j], s.nodes[i]]
        0 <= j < s.links.len() && 0 <= i < s.nodes.len() && s.nodes[i].0 == s.links[j].from.node_id
            && s.nodes[i].1.node_type != output_node::IDENTIFIER@ ==> {
            &&& s.links[j].from.property@ == "output"@
            &&& has_key(cache, s.nodes[i].1.id) ==> has_key(assoc_get(cache, s.nodes[i].1.id), "output"@)
        }
}

/// The view of the media piped into each node.
pub open spec fn piped_view(v: Seq<Vec<(String, PipedType)>>) -> Seq<Seq<(Seq<char>, PipedTypeV)>> {
    v.map_values(|x: Vec<(String, PipedType)>| named_view(x@))
}

/// A node whose key occurs once has its own position as graph index.
pub proof fn lemma_unique_index(s: StoreV, i: int)
    requires
        keys_unique(s.nodes),
        0 <= i < s.nodes.len(),
    ensures
        spec_node_ids(s)[i] == s.nodes[i].0,
        spec_index_of(spec_node_ids(s), s.nodes[i].0) == i,
        key_index(s.nodes, s.nodes[i].0) == i,
{
    let ids = spec_node_ids(s);
    let ns = s.nodes;
    lemma_index_of(ids, ns[i].0);
    lemma_key_index_unique(ns, ns[i].0, i);
    let k = spec_index_of(ids, ns[i].0);
    assert(ids[i] == ns[i].0);
    if k != i {
        if k >= 0 {
            assert(ids[k] == ns[k].0);
        }
    }
}

/// Every composited clip's output node is an output node.
proof fn lemma_outputs_are_output_nodes(ns: Seq<(ID, NodeValue)>)
    requires
        ns.len() < index_limit(),
    ensures
        spec_graph_outputs(ns) matches Ok(m) ==> forall|k: ID| #[trigger] m.contains_key(k) ==> m[k] < ns.len()
            && ns[m[k] as int].1.node_type == output_node::IDENTIFIER@,
        spec_graph_outputs(ns) is Ok ==> forall|i: int| 0 <= i < ns.len() && #[trigger] ns[i].1.node_type == output_node::IDENTIFIER@
            ==> spec_output_clip(ns[i].1) is Ok,
    decreases ns.len(),
{
    if ns.len() > 0 {
        lemma_outputs_are_output_nodes(ns.drop_last());
        if spec_graph_outputs(ns) is Ok {
            assert forall|i: int| 0 <= i < ns.len() && #[trigger] ns[i].1.node_type == output_node::IDENTIFIER@
                implies spec_output_clip(ns[i].1) is Ok by {
                if i < ns.len() - 1 {
                    assert(ns[i] == ns.drop_last()[i]);
                }
            }
            let m = spec_graph_outputs(ns)->Ok_0;
            let m0 = spec_graph_outputs(ns.drop_last())->Ok_0;
            if ns.last().1.node_type == output_node::IDENTIFIER@ {
                let cid = spec_output_clip(ns.last().1)->Ok_0;
                assert(m == spec_bimap_insert(m0, cid, (ns.len() - 1) as usize));
                assert forall|k: ID| #[trigger] m.contains_key(k) implies m[k] < ns.len()
                    && ns[m[k] as int].1.node_type == output_node::IDENTIFIER@ by {
                    if k == cid {
                        assert(ns[ns.len() - 1] == ns.last());
                    } else {
                        assert(m0.contains_key(k));
                        assert(ns[m0[k] as int] == ns.drop_last()[m0[k] as int]);
                    }
                }
            } else {
                assert(m == m0);
                assert forall|k: ID| #[trigger] m.contains_key(k) implies m[k] < ns.len()
                    && ns[m[k] as int].1.node_type == output_node::IDENTIFIER@ by {
                    assert(ns[m0[k] as int] == ns.drop_last()[m0[k] as int]);
                }
            }
        }
    }
}

/// The edges of the imports join an output node to a node.
proof fn lemma_import_edges(ns: Seq<(ID, NodeValue)>, nmap: Map<ID, usize>, m: Map<ID, usize>, n: int)
    requires
        forall|k: ID| #[trigger] m.contains_key(k) ==> m[k] < n,
        forall|k: ID| #[trigger] nmap.contains_key(k) ==> nmap[k] < n,
        forall|i: int| 0 <= i < ns.len() ==> nmap.contains_key(#[trigger] ns[i].0),
    ensures
        spec_graph_imports(ns, nmap, m) matches Ok(es) ==> forall|k: int| 0 <= k < es.len() ==> {
            &&& (#[trigger] es[k]).0 < n && es[k].1 < n && es[k].2 is None
            &&& exists|c: ID| m.contains_key(c) && m[c] == es[k].0
        },
    decreases ns.len(),
{
    if ns.len() > 0 {
        assert forall|i: int| 0 <= i < ns.drop_last().len() implies nmap.contains_key(#[trigger] ns.drop_last()[i].0) by {
            assert(ns.drop_last()[i] == ns[i]);
        }
        lemma_import_edges(ns.drop_last(), nmap, m, n);
        assert(nmap.contains_key(ns[ns.len() - 1].0));
    }
}

/// The edges of the links join the nodes their links name.
proof fn lemma_link_edges(nmap: Map<ID, usize>, ls: Seq<Link>, n: int)
    requires
        forall|k: ID| #[trigger] nmap.contains_key(k) ==> nmap[k] < n,
    ensures
        spec_link_edges(nmap, ls) matches Ok(es) ==> forall|k: int| 0 <= k < es.len() ==> exists|j: int| {
            &&& 0 <= j < ls.len()
            &&& nmap.contains_key(#[trigger] ls[j].from.node_id)
            &&& nmap.contains_key(ls[j].to.node_id)
            &&& (#[trigger] es[k]) == (nmap[ls[j].from.node_id], nmap[ls[j].to.node_id], None::<(Seq<char>, Seq<char>)>)
        },
        spec_link_edges(nmap, ls) matches Ok(es) ==> es.len() == ls.len(),
    decreases ls.len(),
{
    if ls.len() > 0 {
        lemma_link_edges(nmap, ls.drop_last(), n);
        if let Ok(es) = spec_link_edges(nmap, ls) {
            assert forall|k: int| 0 <= k < es.len() implies exists|j: int| {
                &&& 0 <= j < ls.len()
                &&& nmap.contains_key(#[trigger] ls[j].from.node_id)
                &&& nmap.contains_key(ls[j].to.node_id)
                &&& (#[trigger] es[k]) == (nmap[ls[j].from.node_id], nmap[ls[j].to.node_id], None::<(Seq<char>, Seq<char>)>)
            } by {
                if k == es.len() - 1 {
                    assert(ls[ls.len() - 1] == ls.last());
                } else {
                    let es0 = spec_link_edges(nmap, ls.drop_last())->Ok_0;
                    assert(es[k] == es0[k]);
                    let j = choose|j: int| {
                        &&& 0 <= j < ls.drop_last().len()
                        &&& nmap.contains_key(#[trigger] ls.drop_last()[j].from.node_id)
                        &&& nmap.contains_key(ls.drop_last()[j].to.node_id)
                        &&& (#[trigger] es0[k]) == (nmap[ls.drop_last()[j].from.node_id], nmap[ls.drop_last()[j].to.node_id], None::<(Seq<char>, Seq<char>)>)
                    };
                    assert(ls.drop_last()[j] == ls[j]);
                }
            }
        }
    }
}

/// `e`, as (target, properties), is an edge of `es` from `x`.
pub open spec fn spec_edge_from(es: Seq<EdgeV>, x: usize, e: (usize, Option<(Seq<char>, Seq<char>)>)) -> bool {
    exists|k: int| 0 <= k < es.len() && (#[trigger] es[k]).0 == x && e == (es[k].1, es[k].2)
}

/// Each outgoing edge of `x`, as listed, is an edge of the graph from `x`.
pub proof fn lemma_out_edges(es: Seq<EdgeV>, x: usize)
    ensures
        forall|i: int| 0 <= i < spec_out_edges(es, x).len() ==> spec_edge_from(es, x, #[trigger] spec_out_edges(es, x)[i]),
    decreases es.len(),
{
    if es.len() > 0 {
        lemma_out_edges(es.drop_last(), x);
        let rest = spec_out_edges(es.drop_last(), x);
        let e = es.last();
        assert(es[es.len() - 1] == e);
        assert forall|i: int| 0 <= i < spec_out_edges(es, x).len() implies spec_edge_from(es, x, #[trigger] spec_out_edges(es, x)[i]) by {
            if e.0 == x {
                assert(spec_out_edges(es, x) == seq![(e.1, e.2)] + rest);
                if i > 0 {
                    assert(spec_out_edges(es, x)[i] == rest[i - 1]);
                    assert(spec_edge_from(es.drop_last(), x, rest[i - 1]));
                    let k = choose|k: int| 0 <= k < es.drop_last().len() && (#[trigger] es.drop_last()[k]).0 == x
                        && rest[i - 1] == (es.drop_last()[k].1, es.drop_last()[k].2);
                    assert(es[k] == es.drop_last()[k]);
                } else {
                    assert(es[es.len() - 1].0 == x);
                }
            } else {
                assert(spec_out_edges(es, x) == rest);
                assert(spec_edge_from(es.drop_last(), x, rest[i]));
                let k = choose|k: int| 0 <= k < es.drop_last().len() && (#[trigger] es.drop_last()[k]).0 == x
                    && rest[i] == (es.drop_last()[k].1, es.drop_last()[k].2);
                assert(es[k] == es.drop_last()[k]);
            }
        }
    }
}

/// The edges of a project's graph join nodes and carry no data.
pub proof fn lemma_graph_edges(s: StoreV, es: Seq<EdgeV>)
    requires
        spec_get_graph(s) == Ok::<Seq<EdgeV>, Seq<char>>(es),
        s.nodes.len() < index_limit(),
    ensures
        forall|k: int| 0 <= k < es.len() ==> (#[trigger] es[k]).0 < s.nodes.len() && es[k].1 < s.nodes.len() && es[k].2 is None,
{
    let ids = spec_node_ids(s);
    let nmap = spec_node_index_map(ids);
    let n = s.nodes.len() as int;
    assert forall|k: ID| #[trigger] nmap.contains_key(k) implies nmap[k] < n by {
        lemma_index_of(ids, k);
    }
    assert forall|i: int| 0 <= i < s.nodes.len() implies nmap.contains_key(#[trigger] s.nodes[i].0) by {
        lemma_index_of(ids, s.nodes[i].0);
        assert(ids[i] == s.nodes[i].0);
    }
    lemma_outputs_are_output_nodes(s.nodes);
    let m = spec_graph_outputs(s.nodes)->Ok_0;
    lemma_import_edges(s.nodes, nmap, m, n);
    lemma_link_edges(nmap, s.links, n);
    let e1 = spec_graph_imports(s.nodes, nmap, m)->Ok_0;
    let e2 = spec_link_edges(nmap, s.links)->Ok_0;
    assert(es == e1 + e2);
    assert forall|k: int| 0 <= k < es.len() implies (#[trigger] es[k]).0 < s.nodes.len() && es[k].1 < s.nodes.len() && es[k].2 is None by {
        if k < e1.len() {
            assert(es[k] == e1[k]);
        } else {
            let k2 = k - e1.len();
            assert(es[k] == e2[k2]);
            let j = choose|j: int| {
                &&& 0 <= j < s.links.len()
                &&& nmap.contains_key(#[trigger] s.links[j].from.node_id)
                &&& nmap.contains_key(s.links[j].to.node_id)
                &&& (#[trigger] e2[k2]) == (nmap[s.links[j].from.node_id], nmap[s.links[j].to.node_id], None::<(Seq<char>, Seq<char>)>)
            };
        }
    }
}

/// When the graph can be built, every link names nodes at both ends, and
/// every node's index is below the number of nodes.
proof fn lemma_links_named(s: StoreV)
    requires
        spec_get_graph(s) is Ok,
    ensures
        forall|j: int| 0 <= j < s.links.len() ==> spec_node_index_map(spec_node_ids(s)).contains_key(#[trigger] s.links[j].to.node_id)
            && spec_node_index_map(spec_node_ids(s)).contains_key(s.links[j].from.node_id),
        forall|k: ID| #[trigger] spec_node_index_map(spec_node_ids(s)).contains_key(k) ==> spec_node_index_map(spec_node_ids(s))[k] < s.nodes.len(),
{
    let ids = spec_node_ids(s);
    let nmap = spec_node_index_map(ids);
    assert forall|k: ID| #[trigger] nmap.contains_key(k) implies nmap[k] < s.nodes.len() by {
        lemma_index_of(ids, k);
    }
    lemma_link_edges(nmap, s.links, s.nodes.len() as int);
    let es = spec_link_edges(nmap, s.links)->Ok_0;
    assert forall|j: int| 0 <= j < s.links.len() implies nmap.contains_key(#[trigger] s.links[j].to.node_id)
        && nmap.contains_key(s.links[j].from.node_id) by {
        lemma_links_named_at(nmap, s.links, j);
    }
}

proof fn lemma_links_named_at(nmap: Map<ID, usize>, ls: Seq<Link>, j: int)
    requires
        spec_link_edges(nmap, ls) is Ok,
        0 <= j < ls.len(),
    ensures
        nmap.contains_key(ls[j].to.node_id) && nmap.contains_key(ls[j].from.node_id),
    decreases ls.len(),
{
    if j < ls.len() - 1 {
        assert(ls.drop_last()[j] == ls[j]);
        lemma_links_named_at(nmap, ls.drop_last(), j);
    } else {
        assert(ls[j] == ls.last());
    }
}

/// Edge `j` of the links' edges stands for link `j`.
proof fn lemma_link_edge_at(nmap: Map<ID, usize>, ls: Seq<Link>, j: int)
    requires
        spec_link_edges(nmap, ls) is Ok,
        0 <= j < ls.len(),
    ensures
        spec_link_edges(nmap, ls)->Ok_0.len() == ls.len(),
        spec_link_edges(nmap, ls)->Ok_0[j] == (nmap[ls[j].from.node_id], nmap[ls[j].to.node_id], None::<(Seq<char>, Seq<char>)>),
    decreases ls.len(),
{
    let d = ls.drop_last();
    if j < ls.len() - 1 {
        assert(d[j] == ls[j]);
        lemma_link_edge_at(nmap, d, j);
    } else {
        assert(ls[j] == ls.last());
        if d.len() > 0 {
            lemma_link_edge_at(nmap, d, 0);
        }
    }
}

/// `n` different indices below `n` are all of them.
proof fn lemma_order_covers(o: Seq<usize>, n: nat, v: int)
    requires
        o.len() == n,
        forall|i: int| 0 <= i < o.len() ==> #[trigger] o[i] < n,
        forall|i: int, j: int| 0 <= i < j < o.len() ==> o[i] != o[j],
        0 <= v < n,
    ensures
        exists|i: int| 0 <= i < o.len() && o[i] == v,
{
    broadcast use vstd::seq_lib::seq_to_set_is_finite;
    let oi = o.map_values(|x: usize| x as int);
    assert(oi.no_duplicates()) by {
        assert forall|i: int, j: int| 0 <= i < oi.len() && 0 <= j < oi.len() && i != j implies oi[i] != oi[j] by {
            if i < j { assert(o[i] != o[j]); } else { assert(o[j] != o[i]); }
        }
    }
    oi.unique_seq_to_set();
    let r = vstd::set_lib::set_int_range(0, n as int);
    vstd::set_lib::lemma_int_range(0, n as int);
    assert(oi.to_set().subset_of(r)) by {
        assert forall|x: int| oi.to_set().contains(x) implies r.contains(x) by {
            let i = choose|i: int| 0 <= i < oi.len() && oi[i] == x;
            assert(o[i] < n);
        }
    }
    vstd::set_lib::lemma_subset_equality(oi.to_set(), r);
    assert(r.contains(v));
    assert(oi.to_set().contains(v));
    let i = choose|i: int| 0 <= i < oi.len() && oi[i] == v;
    assert(o[i] == v);
}

/// Links going both ways between two nodes (or a link from a node to itself)
/// make a cycle: the project's graph then has no topological order, and
/// `generate_pipeline` fails with its cycle error.
pub proof fn law_two_way_links_have_no_order(s: StoreV, es: Seq<EdgeV>, j1: int, j2: int)
    requires
        spec_get_graph(s) == Ok::<Seq<EdgeV>, Seq<char>>(es),
        0 <= j1 < s.links.len(),
        0 <= j2 < s.links.len(),
        s.links[j1].from.node_id == s.links[j2].to.node_id,
        s.links[j1].to.node_id == s.links[j2].from.node_id,
    ensures
        forall|o: Seq<usize>| !spec_is_topo_order(s.nodes.len() as nat, es, o),
{
    let ids = spec_node_ids(s);
    let nmap = spec_node_index_map(ids);
    let n = s.nodes.len() as nat;
    let m = spec_graph_outputs(s.nodes)->Ok_0;
    let e1 = spec_graph_imports(s.nodes, nmap, m)->Ok_0;
    let e2 = spec_link_edges(nmap, s.links)->Ok_0;
    assert(es == e1 + e2);
    lemma_links_named(s);
    lemma_link_edge_at(nmap, s.links, j1);
    lemma_link_edge_at(nmap, s.links, j2);
    let k1 = e1.len() + j1;
    let k2 = e1.len() + j2;
    assert(es[k1] == e2[j1]);
    assert(es[k2] == e2[j2]);
    let a = nmap[s.links[j1].from.node_id];
    let b = nmap[s.links[j1].to.node_id];
    assert forall|o: Seq<usize>| !spec_is_topo_order(n, es, o) by {
        if spec_is_topo_order(n, es, o) {
            lemma_order_covers(o, n, a as int);
            lemma_order_covers(o, n, b as int);
            let ia = choose|i: int| 0 <= i < o.len() && o[i] == a;
            let ib = choose|i: int| 0 <= i < o.len() && o[i] == b;
            assert(o[ia] == es[k1].0 && o[ib] == es[k1].1);
            assert(o[ib] == es[k2].0 && o[ia] == es[k2].1);
        }
    }
}

/// The nodes visited in order `o` each have their inputs and outputs recorded.
proof fn lemma_propagate_records(s: StoreV, cache: Seq<(ID, Seq<(Seq<char>, ID)>)>, o: Seq<usize>)
    requires
        spec_propagate(s, cache, o) is Ok,
    ensures
        forall|i: int| 0 <= i < o.len() ==> has_key(spec_propagate(s, cache, o)->Ok_0.data, #[trigger] s.nodes[o[i] as int].1.id),
    decreases o.len(),
{
    if o.len() > 0 {
        let d = o.drop_last();
        lemma_propagate_records(s, cache, d);
        let st = spec_propagate(s, cache, d)->Ok_0;
        let x = o.last();
        let node = s.nodes[x as int].1;
        let piped = st.piped[x as int];
        let outs = spec_node_outputs(node.node_type, node.properties, piped, st.composited, s.source)->Ok_0;
        let v = NodeIoDataV { piped_inputs: piped, outputs: outs };
        let r = spec_propagate(s, cache, o)->Ok_0;
        assert(r.data == assoc_insert(st.data, node.id, v));
        assert forall|i: int| 0 <= i < o.len() implies has_key(r.data, #[trigger] s.nodes[o[i] as int].1.id) by {
            crate::assoc::lemma_assoc_insert_get(st.data, node.id, v, s.nodes[o[i] as int].1.id);
            if i < o.len() - 1 {
                assert(d[i] == o[i]);
            }
        }
    }
}

/// When the pipeline is generated, every node of the project has its inputs
/// and outputs recorded: a topological order visits every node.
pub proof fn law_generation_covers_every_node(s: StoreV, cache: Seq<(ID, Seq<(Seq<char>, ID)>)>, es: Seq<EdgeV>, o: Seq<usize>)
    requires
        spec_is_topo_order(s.nodes.len() as nat, es, o),
        spec_propagate(s, cache, o) is Ok,
    ensures
        forall|v: int| 0 <= v < s.nodes.len() ==> has_key(spec_propagate(s, cache, o)->Ok_0.data, #[trigger] s.nodes[v].1.id),
{
    lemma_propagate_records(s, cache, o);
    assert forall|v: int| 0 <= v < s.nodes.len() implies has_key(spec_propagate(s, cache, o)->Ok_0.data, #[trigger] s.nodes[v].1.id) by {
        lemma_order_covers(o, s.nodes.len() as nat, v);
        let i = choose|i: int| 0 <= i < o.len() && o[i] == v;
        assert(s.nodes[o[i] as int] == s.nodes[v]);
    }
}

/// The links leaving node `id`, most recent first, each as the graph index
/// of its target and the (output, input) properties it joins: the order in
/// which the node's outgoing edges are walked.
pub open spec fn spec_links_out(nmap: Map<ID, usize>, ls: Seq<Link>, id: ID) -> Seq<(usize, Option<(Seq<char>, Seq<char>)>)>
    decreases ls.len(),
{
    if ls.len() == 0 {
        Seq::empty()
    } else {
        let l = ls.last();
        let rest = spec_links_out(nmap, ls.drop_last(), id);
        if l.from.node_id == id {
            seq![(nmap[l.to.node_id], Some((l.from.property@, l.to.property@)))] + rest
        } else {
            rest
        }
    }
}

/// `e` stands for a link of `ls` leaving node `id`.
pub open spec fn spec_link_from(nmap: Map<ID, usize>, ls: Seq<Link>, id: ID, e: (usize, Option<(Seq<char>, Seq<char>)>)) -> bool {
    exists|j: int| 0 <= j < ls.len() && (#[trigger] ls[j]).from.node_id == id
        && e == (nmap[ls[j].to.node_id], Some((ls[j].from.property@, ls[j].to.property@)))
}

/// Each entry of `spec_links_out` stands for a link leaving the node.
proof fn lemma_links_out(nmap: Map<ID, usize>, ls: Seq<Link>, id: ID)
    ensures
        forall|i: int| 0 <= i < spec_links_out(nmap, ls, id).len() ==> spec_link_from(nmap, ls, id, #[trigger] spec_links_out(nmap, ls, id)[i]),
    decreases ls.len(),
{
    if ls.len() > 0 {
        let d = ls.drop_last();
        lemma_links_out(nmap, d, id);
        let rest = spec_links_out(nmap, d, id);
        let l = ls.last();
        assert(ls[ls.len() - 1] == l);
        assert forall|i: int| 0 <= i < spec_links_out(nmap, ls, id).len() implies spec_link_from(nmap, ls, id, #[trigger] spec_links_out(nmap, ls, id)[i]) by {
            let r = spec_links_out(nmap, ls, id);
            let k: int = if l.from.node_id == id { i - 1 } else { i };
            if l.from.node_id == id && i == 0 {
                assert(r[0] == (nmap[l.to.node_id], Some((l.from.property@, l.to.property@))));
            } else {
                assert(r[i] == rest[k]);
                assert(spec_link_from(nmap, d, id, rest[k]));
                let j = choose|j: int| 0 <= j < d.len() && (#[trigger] d[j]).from.node_id == id
                    && rest[k] == (nmap[d[j].to.node_id], Some((d[j].from.property@, d[j].to.property@)));
                assert(ls[j] == d[j]);
            }
        }
    }
}

/// The view of a list of outgoing links, each as its target's index and its
/// properties.
pub open spec fn out_view(v: Seq<(usize, Option<(String, String)>)>) -> Seq<(usize, Option<(Seq<char>, Seq<char>)>)> {
    v.map_values(|e: (usize, Option<(String, String)>)| (e.0, crate::graph::ports_view(e.1)))
}

/// The links leaving node `id`, most recent first, each as the graph index
/// of its target (by `map`) and the properties it joins.
fn links_out(links: &Vec<Link>, id: ID, map: &IdIndexMap) -> (r: Vec<(usize, Option<(String, String)>)>)
    requires
        forall|j: int| 0 <= j < links@.len() ==> bimap_pairs(*map).contains_key(#[trigger] links@[j].to.node_id),
    ensures
        out_view(r@) == spec_links_out(bimap_pairs(*map), links@, id),
{
    let ghost nmap = bimap_pairs(*map);
    let mut r: Vec<(usize, Option<(String, String)>)> = Vec::new();
    let mut i = links.len();
    assert(links@.take(i as int) =~= links@);
    while i > 0
        invariant
            i <= links@.len(),
            nmap == bimap_pairs(*map),
            forall|j: int| 0 <= j < links@.len() ==> nmap.contains_key(#[trigger] links@[j].to.node_id),
            out_view(r@) + spec_links_out(nmap, links@.take(i as int), id) == spec_links_out(nmap, links@, id),
        decreases i,
    {
        let ghost before = out_view(r@);
        let ghost tail = spec_links_out(nmap, links@.take(i - 1), id);
        assert(links@.take(i as int).drop_last() =~= links@.take(i - 1));
        assert(links@.take(i as int).last() == links@[i - 1]);
        let l = &links[i - 1];
        if l.from.node_id == id {
            let t = match bimap_get_by_left(map, l.to.node_id) {
                Some(t) => t,
                None => {
                    assert(nmap.contains_key(links@[i - 1].to.node_id));
                    return vstd::pervasive::unreached();
                },
            };
            r.push((t, Some((l.from.property.clone(), l.to.property.clone()))));
            let ghost e = (nmap[l.to.node_id], Some((l.from.property@, l.to.property@)));
            assert(out_view(r@) =~= before.push(e));
            assert(before.push(e) + tail =~= before + (seq![e] + tail));
        } else {
            assert(out_view(r@) =~= before);
        }
        i = i - 1;
    }
    assert(out_view(r@) + spec_links_out(nmap, links@.take(0), id) =~= out_view(r@));
    r
}

/// Once the walk fails, it fails with the same error.
proof fn lemma_propagate_err(s: StoreV, cache: Seq<(ID, Seq<(Seq<char>, ID)>)>, o: Seq<usize>, n: int)
    requires
        0 <= n <= o.len(),
        spec_propagate(s, cache, o.take(n)) is Err,
    ensures
        spec_propagate(s, cache, o) == spec_propagate(s, cache, o.take(n)),
    decreases o.len() - n,
{
    if n < o.len() {
        assert(o.take(n + 1).drop_last() =~= o.take(n));
        lemma_propagate_err(s, cache, o, n + 1);
    } else {
        assert(o.take(n) =~= o);
    }
}

/// A node of a registered type other than output has an output `output`.
proof fn lemma_has_output(
    node_type: Seq<char>,
    properties: Seq<(Seq<char>, PropertyValueV)>,
    piped_inputs: Seq<(Seq<char>, PipedTypeV)>,
    composited: Seq<(ID, PipedTypeV)>,
    source: Seq<(ID, crate::clip::SourceClipV)>,
)
    requires
        node_type != output_node::IDENTIFIER@,
        spec_node_outputs(node_type, properties, piped_inputs, composited, source) is Ok,
    ensures
        spec_output_named(spec_node_outputs(node_type, properties, piped_inputs, composited, source)->Ok_0, "output"@) is Some,
{
    let o = spec_node_outputs(node_type, properties, piped_inputs, composited, source)->Ok_0;
    assert(o.len() == 1 && o.last().name == "output"@);
}

fn clone_piped(v: &Vec<(String, PipedType)>) -> (r: Vec<(String, PipedType)>)
    ensures
        named_view(r@) == named_view(v@),
{
    let mut r: Vec<(String, PipedType)> = Vec::new();
    let mut i: usize = 0;
    while i < v.len()
        invariant
            i <= v.len(),
            named_view(r@) =~= named_view(v@).take(i as int),
        decreases v.len() - i,
    {
        let k = v[i].0.clone();
        let p = v[i].1.clone();
        r.push((k, p));
        proof {
            assert(named_view(v@).take(i + 1) =~= named_view(v@).take(i as int).push((v@[i as int].0@, v@[i as int].1@)));
        }
        i = i + 1;
    }
    assert(named_view(v@).take(v.len() as int) =~= named_view(v@));
    r
}

fn clone_output_list(v: &Vec<NodeTypeOutput>) -> (r: Vec<NodeTypeOutput>)
    ensures
        outputs_view(r@) == outputs_view(v@),
{
    let mut r: Vec<NodeTypeOutput> = Vec::new();
    let mut i: usize = 0;
    while i < v.len()
        invariant
            i <= v.len(),
            outputs_view(r@) =~= outputs_view(v@).take(i as int),
        decreases v.len() - i,
    {
        let o = v[i].clone();
        r.push(o);
        proof {
            assert(outputs_view(v@).take(i + 1) =~= outputs_view(v@).take(i as int).push(v@[i as int]@));
        }
        i = i + 1;
    }
    assert(outputs_view(v@).take(v.len() as int) =~= outputs_view(v@));
    r
}

/// The output named `name` (the last one), if any.
fn find_output<'a>(outs: &'a Vec<NodeTypeOutput>, name: &str) -> (r: Option<&'a NodeTypeOutput>)
    ensures
        match r {
            Some(o) => spec_output_named(outputs_view(outs@), name@) == Some(o@),
            None => spec_output_named(outputs_view(outs@), name@) is None,
        },
{
    let ghost ov = outputs_view(outs@);
    let mut i = outs.len();
    assert(ov.take(i as int) =~= ov);
    while i > 0
        invariant
            i <= outs.len(),
            ov == outputs_view(outs@),
            spec_output_named(ov, name@) == spec_output_named(ov.take(i as int), name@),
        decreases i,
    {
        assert(ov.take(i as int).drop_last() =~= ov.take(i - 1));
        assert(ov.take(i as int).last() == outs@[i - 1]@);
        if str_eq(outs[i - 1].name.as_str(), name) {
            return Some(&outs[i - 1]);
        }
        i = i - 1;
    }
    None
}

impl Pipeline {
    /// Works out what flows through the project's graph: visits the nodes in
    /// the topological order that `petgraph` gives, finds the outputs of each
    /// from the media piped into it, and pipes each output along the links
    /// leaving its node; an output node instead records the type of the
    /// composited clip it renders, which the imports of that clip read.
    /// Fails as `get_graph` does, on a cycle (exactly when the graph has no
    /// topological order), or when the outputs of a node cannot be found.
    pub fn generate_pipeline(&self, store: &Store, cache: &Cache) -> (r: Result<GeneratedPipeline, String>)
        requires
            store.nodes.len() + self.links.len() < index_limit(),
            keys_unique(store@.nodes),
            match spec_get_graph(StoreV { links: self.links@, ..store@ }) {
                Ok(es) => (exists|o: Seq<usize>| spec_is_topo_order(store.nodes.len() as nat, es, o))
                    ==> spec_generate_safe(StoreV { links: self.links@, ..store@ }, cache@),
                Err(_) => true,
            },
        ensures
            match spec_get_graph(StoreV { links: self.links@, ..store@ }) {
                Err(e) => r matches Err(m) && m@ == e,
                Ok(es) => match toposort_order(store.nodes.len() as nat, es) {
                    None => {
                        &&& r matches Err(m) && m@ == "Found cycle in the graph!"@
                        &&& forall|o: Seq<usize>| !spec_is_topo_order(store.nodes.len() as nat, es, o)
                    },
                    Some(o) => spec_is_topo_order(store.nodes.len() as nat, es, o)
                        && match spec_propagate(StoreV { links: self.links@, ..store@ }, cache@, o) {
                        Ok(st) => r matches Ok(g) && {
                            &&& g.order@ == o
                            &&& spec_is_topo_order(store.nodes.len() as nat, es, g.order@)
                            &&& id_map_view(g.node_type_data@) == st.data
                            &&& id_map_view(g.composited_clip_data@) == st.composited
                        },
                        Err(e) => r matches Err(m) && m@ == e,
                    },
                },
            },
    {
        let (graph, node_id_to_index) = match self.get_graph(store) {
            Ok(p) => p,
            Err(e) => return Err(e),
        };
        let sorted = match graph_toposort(&graph) {
            Some(o) => o,
            None => return Err(owned("Found cycle in the graph!")),
        };
        assert(spec_is_topo_order(store.nodes.len() as nat, graph_edges(graph), sorted@));
        self.propagate_types(store, cache, &graph, &node_id_to_index, sorted)
    }

    /// Visits the nodes of the project's graph in the order `sorted`, a
    /// topological order of it: finds the outputs of each node from the media
    /// piped into it, and pipes each output along the links leaving the node,
    /// most recent first; an output node instead records the type of the composited clip
    /// it renders. `graph` and `node_id_to_index` are what `get_graph` built.
    /// Fails when the outputs of a node cannot be found.
    pub fn propagate_types(&self, store: &Store, cache: &Cache, graph: &ProjectGraph, node_id_to_index: &IdIndexMap,
        sorted: Vec<usize>) -> (r: Result<GeneratedPipeline, String>)
        requires
            store.nodes.len() + self.links.len() < index_limit(),
            keys_unique(store@.nodes),
            spec_generate_safe(StoreV { links: self.links@, ..store@ }, cache@),
            spec_get_graph(StoreV { links: self.links@, ..store@ }) == Ok::<Seq<EdgeV>, Seq<char>>(graph_edges(*graph)),
            graph_node_count(*graph) == store.nodes.len(),
            graph_in_limits(*graph),
            bimap_pairs(*node_id_to_index) == spec_node_index_map(spec_node_ids(StoreV { links: self.links@, ..store@ })),
            spec_is_topo_order(store.nodes.len() as nat, graph_edges(*graph), sorted@),
        ensures
            match spec_propagate(StoreV { links: self.links@, ..store@ }, cache@, sorted@) {
                Ok(st) => r matches Ok(g) && {
                    &&& g.order@ == sorted@
                    &&& id_map_view(g.node_type_data@) == st.data
                    &&& id_map_view(g.composited_clip_data@) == st.composited
                },
                Err(e) => r matches Err(m) && m@ == e,
            },
    {
        let ghost sv = StoreV { links: self.links@, ..store@ };
        let ghost ids = spec_node_ids(sv);
        let ghost nmap = spec_node_index_map(ids);
        let ghost es = graph_edges(*graph);
        let ghost n = store.nodes.len() as nat;
        proof {
            lemma_links_named(sv);
        }
        let mut piped: Vec<Vec<(String, PipedType)>> = Vec::new();
        let mut i: usize = 0;
        while i < store.nodes.len()
            invariant
                i <= store.nodes.len(),
                piped@.len() == i,
                forall|k: int| 0 <= k < i ==> (#[trigger] piped@[k])@.len() == 0,
            decreases store.nodes.len() - i,
        {
            piped.push(Vec::new());
            i = i + 1;
        }
        let mut data: Vec<(ID, NodeIoData)> = Vec::new();
        let mut composited: Vec<(ID, PipedType)> = Vec::new();
        proof {
            assert(sorted@.take(0) =~= Seq::<usize>::empty());
            assert forall|k: int| 0 <= k < piped@.len() implies #[trigger] piped_view(piped@)[k] == Seq::<(Seq<char>, PipedTypeV)>::empty() by {
                assert(piped@[k]@.len() == 0);
                assert(named_view(piped@[k]@) =~= Seq::<(Seq<char>, PipedTypeV)>::empty());
            }
            assert(piped_view(piped@) =~= Seq::new(sv.nodes.len(), |i: int| Seq::<(Seq<char>, PipedTypeV)>::empty()));
            assert(id_map_view(data@) =~= Seq::<(ID, NodeIoDataV)>::empty());
            assert(id_map_view(composited@) =~= Seq::<(ID, PipedTypeV)>::empty());
        }
        let mut j: usize = 0;
        while j < sorted.len()
            invariant
                j <= sorted.len(),
                sv == (StoreV { links: self.links@, ..store@ }),
                ids == spec_node_ids(sv),
                nmap == spec_node_index_map(ids),
                n == store.nodes.len(),
                keys_unique(store@.nodes),
                spec_generate_safe(sv, cache@),
                store.nodes.len() + self.links.len() < index_limit(),
                spec_get_graph(sv) == Ok::<Seq<EdgeV>, Seq<char>>(es),
                es == graph_edges(*graph),
                graph_node_count(*graph) == n,
                graph_in_limits(*graph),
                bimap_pairs(*node_id_to_index) == nmap,
                spec_is_topo_order(n, es, sorted@),
                piped@.len() == n,
                forall|k: ID| #[trigger] nmap.contains_key(k) ==> nmap[k] < n,
                forall|j: int| 0 <= j < sv.links.len() ==> nmap.contains_key(#[trigger] sv.links[j].to.node_id),
                spec_propagate(sv, cache@, sorted@.take(j as int)) == Ok::<PropagationV, Seq<char>>(PropagationV {
                    piped: piped_view(piped@),
                    data: id_map_view(data@),
                    composited: id_map_view(composited@),
                }),
            decreases sorted.len() - j,
        {
            let x = sorted[j];
            let ghost st = PropagationV { piped: piped_view(piped@), data: id_map_view(data@), composited: id_map_view(composited@) };
            proof {
                assert(sorted@.take(j + 1).drop_last() =~= sorted@.take(j as int));
                assert(sorted@.take(j + 1).last() == x);
                assert(x < n);
                lemma_unique_index(sv, x as int);
                lemma_index_of(ids, ids[x as int]);
            }
            let key = match bimap_get_by_right(node_id_to_index, x) {
                Some(k) => k,
                None => {
                    proof {
                        assert(nmap.contains_key(ids[x as int]));
                        assert(nmap[ids[x as int]] == x);
                    }
                    return vstd::pervasive::unreached();
                },
            };
            proof {
                lemma_index_of(ids, key);
                assert(key == ids[x as int]);
            }
            let at = match id_index(&store.nodes, key) {
                Some(a) => a,
                None => {
                    return vstd::pervasive::unreached();
                },
            };
            assert(at == x);
            let node = &store.nodes[at].1;
            assert(node@ == sv.nodes[x as int].1);
            let outs = match crate::nodes::get_io(node.node_type.as_str(), node.id, &node.properties, &piped[x], &composited, store) {
                Ok(o) => o,
                Err(e) => {
                    let head = cat3("Could not find IO data for node ", id_to_string(node.id).as_str(), ": ");
                    let msg = cat(head.as_str(), e.as_str());
                    proof {
                        assert(spec_propagate(sv, cache@, sorted@.take(j + 1)) == Err::<PropagationV, Seq<char>>(msg@));
                        lemma_propagate_err(sv, cache@, sorted@, j + 1);
                    }
                    return Err(msg);
                },
            };
            let pin = clone_piped(&piped[x]);
            let outs_copy = clone_output_list(&outs);
            id_insert(&mut data, node.id, NodeIoData { piped_inputs: pin, outputs: outs_copy });
            if str_eq(node.node_type.as_str(), output_node::IDENTIFIER) {
                match named_get(&piped[x], output_node::INPUT_MEDIA) {
                    None => {},
                    Some(t) => {
                        proof {
                            lemma_outputs_are_output_nodes(sv.nodes);
                            assert(sv.nodes[x as int].1.node_type == output_node::IDENTIFIER@);
                        }
                        match get_clip_property(&node.properties, output_node::INPUT_CLIP) {
                            Some(c) => {
                                id_insert(&mut composited, c.id, t.clone());
                            },
                            None => {},
                        }
                    },
                }
            } else {
                let ghost outs_v = outputs_view(outs@);
                let ghost centry = spec_cache_get(cache@, node.id);
                let ghost oes_v = spec_links_out(nmap, sv.links, ids[x as int]);
                let ghost piped0 = piped_view(piped@);
                proof {
                    lemma_has_output(node@.node_type, node@.properties, st.piped[x as int], st.composited, sv.source);
                    lemma_links_out(nmap, sv.links, ids[x as int]);
                }
                let oes = links_out(&self.links, key, node_id_to_index);
                let centry_exec = cache.get(&node.id);
                let mut q: usize = 0;
                while q < oes.len()
                    invariant
                        q <= oes.len(),
                        oes@.len() == oes_v.len(),
                        forall|i: int| 0 <= i < oes@.len() ==> (#[trigger] oes@[i]).0 == oes_v[i].0 && crate::graph::ports_view(oes@[i].1) == oes_v[i].1,
                        forall|i: int| 0 <= i < oes_v.len() ==> spec_link_from(nmap, sv.links, ids[x as int], #[trigger] oes_v[i]),
                        oes_v == spec_links_out(nmap, sv.links, ids[x as int]),
                        ids[x as int] == sv.nodes[x as int].0,
                        piped@.len() == n,
                        n == store.nodes.len(),
                        x < n,
                        ids == spec_node_ids(sv),
                        nmap == spec_node_index_map(ids),
                        bimap_pairs(*node_id_to_index) == nmap,
                        keys_unique(store@.nodes),
                        store.nodes.len() + self.links.len() < index_limit(),
                        spec_generate_safe(sv, cache@),
                        sv == (StoreV { links: self.links@, ..store@ }),
                        node@ == sv.nodes[x as int].1,
                        node@.node_type != output_node::IDENTIFIER@,
                        outs_v == outputs_view(outs@),
                        spec_output_named(outs_v, "output"@) is Some,
                        centry == spec_cache_get(cache@, node.id),
                        match centry_exec {
                            Some(v) => centry == Some(named_view(v@)),
                            None => centry is None,
                        },
                        forall|k: ID| #[trigger] nmap.contains_key(k) ==> nmap[k] < n,
                        forall|j: int| 0 <= j < sv.links.len() ==> nmap.contains_key(#[trigger] sv.links[j].to.node_id),
                        piped_view(piped@) == spec_pipe_out(piped0, ids, outs_v, centry, oes_v.take(q as int)),
                    decreases oes.len() - q,
                {
                    let ghost oe = oes_v[q as int];
                    let ghost lj = choose|lj: int| 0 <= lj < sv.links.len() && (#[trigger] sv.links[lj]).from.node_id == ids[x as int]
                        && oe == (nmap[sv.links[lj].to.node_id], Some((sv.links[lj].from.property@, sv.links[lj].to.property@)));
                    proof {
                        assert(spec_link_from(nmap, sv.links, ids[x as int], oes_v[q as int]));
                        assert(sv.nodes[x as int].0 == sv.links[lj].from.node_id);
                        assert(nmap.contains_key(sv.links[lj].to.node_id));
                        assert(port_from(oe.1) == "output"@);
                        assert(oes_v.take(q + 1).drop_last() =~= oes_v.take(q as int));
                        assert(oes_v.take(q + 1).last() == oe);
                    }
                    let t = oes[q].0;
                    match &oes[q].1 {
                        Some((fp, tp)) => {
                            assert(fp@ == port_from(oe.1));
                            let out = match find_output(&outs, fp.as_str()) {
                                Some(o) => o,
                                None => {
                                    return vstd::pervasive::unreached();
                                },
                            };
                            let cache_id = match centry_exec {
                                Some(m) => {
                                    match named_get(m, fp.as_str()) {
                                        Some(cid) => Some(*cid),
                                        None => {
                                            return vstd::pervasive::unreached();
                                        },
                                    }
                                },
                                None => None,
                            };
                            proof {
                                lemma_unique_index(sv, t as int);
                                lemma_index_of(ids, ids[t as int]);
                            }
                            let to_node = match bimap_get_by_right(node_id_to_index, t) {
                                Some(k2) => k2,
                                None => {
                                    proof {
                                        assert(nmap.contains_key(ids[t as int]));
                                        assert(nmap[ids[t as int]] == t);
                                    }
                                    return vstd::pervasive::unreached();
                                },
                            };
                            proof {
                                lemma_index_of(ids, to_node);
                            }
                            let p = PipedType {
                                stream_type: out.property_type,
                                node_id: to_node,
                                property_name: tp.clone(),
                                io: InputOrOutput::Input,
                                cache_id,
                            };
                            let mut inner = clone_piped(&piped[t]);
                            named_insert(&mut inner, tp.clone(), p);
                            let ghost before = piped_view(piped@);
                            piped.set(t, inner);
                            proof {
                                assert(piped_view(piped@) =~= spec_pipe_edge(before, ids, outs_v, centry, oe));
                            }
                        },
                        None => {
                            return vstd::pervasive::unreached();
                        },
                    }
                    q = q + 1;
                }
                proof {
                    assert(oes_v.take(oes_v.len() as int) =~= oes_v);
                }
            }
            j = j + 1;
        }
        proof {
            assert(sorted@.take(sorted.len() as int) =~= sorted@);
        }
        Ok(GeneratedPipeline { order: sorted, node_type_data: data, composited_clip_data: composited })
    }
}

} // verus!
