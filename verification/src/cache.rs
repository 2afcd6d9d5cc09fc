//! The record of which node outputs have been rendered, so that a change to a
//! node re-renders exactly the nodes downstream of it.
use vstd::prelude::*;
use crate::ID;
use crate::assoc::{key_index, has_key, assoc_get, lemma_key_index, named_view, keys_unique, id_index, id_map_view};
use crate::clip::{ClipIdentifier, ClipType};
use crate::graph::{EdgeV, ProjectGraph, IdIndexMap, graph_edges, graph_node_count, graph_in_limits, index_limit,
    graph_out_edges, spec_out_edges, bimap_get_by_left, bimap_get_by_right, bimap_pairs};
use crate::node::{get_clip_property, spec_clip_prop};
use crate::nodes::media_import_node;
use crate::pipeline::{spec_get_graph, spec_node_ids, spec_node_index_map, spec_index_of, lemma_index_of, spec_edge_from, lemma_out_edges};
use crate::store::{Store, StoreV};
use crate::text::str_eq;

verus! {

/// For each node id, the cached file id of each of its outputs, by output
/// name.
#[derive(Debug)]
pub struct Cache {
    pub cache_data: Vec<(ID, Vec<(String, ID)>)>,
}

/// The entries of a cache, each output map taken by its names' text.
pub open spec fn cache_view(d: Seq<(ID, Vec<(String, ID)>)>) -> Seq<(ID, Seq<(Seq<char>, ID)>)> {
    d.map_values(|e: (ID, Vec<(String, ID)>)| (e.0, named_view(e.1@)))
}

impl View for Cache {
    type V = Seq<(ID, Seq<(Seq<char>, ID)>)>;

    open spec fn view(&self) -> Seq<(ID, Seq<(Seq<char>, ID)>)> {
        cache_view(self.cache_data@)
    }
}

/// The output map cached for `id` (its last entry), if any.
pub open spec fn spec_cache_get(c: Seq<(ID, Seq<(Seq<char>, ID)>)>, id: ID) -> Option<Seq<(Seq<char>, ID)>> {
    if has_key(c, id) {
        Some(assoc_get(c, id))
    } else {
        None
    }
}

/// The cache without any entry for `id`.
pub open spec fn spec_cache_clear(c: Seq<(ID, Seq<(Seq<char>, ID)>)>, id: ID) -> Seq<(ID, Seq<(Seq<char>, ID)>)>
    decreases c.len(),
{
    if c.len() == 0 {
        c
    } else if c.last().0 != id {
        spec_cache_clear(c.drop_last(), id).push(c.last())
    } else {
        spec_cache_clear(c.drop_last(), id)
    }
}

fn clone_outputs(v: &Vec<(String, ID)>) -> (r: Vec<(String, ID)>)
    ensures
        named_view(r@) == named_view(v@),
{
    let mut r: Vec<(String, ID)> = Vec::new();
    let mut i: usize = 0;
    while i < v.len()
        invariant
            i <= v.len(),
            named_view(r@) =~= named_view(v@).take(i as int),
        decreases v.len() - i,
    {
        let k = v[i].0.clone();
        r.push((k, v[i].1));
        proof {
            assert(named_view(v@).take(i + 1) =~= named_view(v@).take(i as int).push((v@[i as int].0@, v@[i as int].1)));
        }
        i = i + 1;
    }
    assert(named_view(v@).take(v.len() as int) =~= named_view(v@));
    r
}

impl Clone for Cache {
    fn clone(&self) -> (r: Self)
        ensures
            r@ == self@,
    {
        let mut d: Vec<(ID, Vec<(String, ID)>)> = Vec::new();
        let mut i: usize = 0;
        while i < self.cache_data.len()
            invariant
                i <= self.cache_data.len(),
                cache_view(d@) =~= cache_view(self.cache_data@).take(i as int),
            decreases self.cache_data.len() - i,
        {
            let o = clone_outputs(&self.cache_data[i].1);
            d.push((self.cache_data[i].0, o));
            proof {
                assert(cache_view(self.cache_data@).take(i + 1) =~= cache_view(self.cache_data@).take(i as int).push(
                    (self.cache_data@[i as int].0, named_view(self.cache_data@[i as int].1@))));
            }
            i = i + 1;
        }
        assert(cache_view(self.cache_data@).take(self.cache_data.len() as int) =~= cache_view(self.cache_data@));
        Cache { cache_data: d }
    }
}

impl Cache {
    /// An empty cache.
    pub fn new() -> (r: Self)
        ensures
            r@ == Seq::<(ID, Seq<(Seq<char>, ID)>)>::empty(),
    {
        Cache { cache_data: Vec::new() }
    }

    /// The outputs cached for node `id`, if any.
    pub fn get(&self, id: &ID) -> (r: Option<&Vec<(String, ID)>>)
        ensures
            match r {
                Some(v) => spec_cache_get(self@, *id) == Some(named_view(v@)),
                None => spec_cache_get(self@, *id) is None,
            },
    {
        let ghost cv = self@;
        proof {
            lemma_key_index(cv, *id);
        }
        let mut i = self.cache_data.len();
        while i > 0
            invariant
                i <= self.cache_data.len(),
                cv == self@,
                forall|j: int| i <= j < self.cache_data.len() ==> cv[j].0 != *id,
            decreases i,
        {
            i = i - 1;
            if self.cache_data[i].0 == *id {
                proof {
                    assert(cv[i as int] == (self.cache_data@[i as int].0, named_view(self.cache_data@[i as int].1@)));
                    lemma_key_index(cv, *id);
                    if key_index(cv, *id) != i {
                        assert(cv[i as int].0 == *id);
                    }
                }
                return Some(&self.cache_data[i].1);
            }
        }
        proof {
            lemma_key_index(cv, *id);
            if key_index(cv, *id) >= 0 {
                assert(cv[key_index(cv, *id)].0 == *id);
            }
        }
        None
    }

    /// Forgets every entry of node `id`.
    pub fn clear(&mut self, id: &ID)
        ensures
            final(self)@ == spec_cache_clear(old(self)@, *id),
    {
        let ghost cv = self@;
        let mut kept: Vec<(ID, Vec<(String, ID)>)> = Vec::new();
        let mut old_data: Vec<(ID, Vec<(String, ID)>)> = Vec::new();
        std::mem::swap(&mut old_data, &mut self.cache_data);
        let mut i: usize = 0;
        while i < old_data.len()
            invariant
                i <= old_data.len(),
                cv == cache_view(old_data@),
                cache_view(kept@) == spec_cache_clear(cv.take(i as int), *id),
            decreases old_data.len() - i,
        {
            proof {
                assert(cv.take(i + 1).drop_last() =~= cv.take(i as int));
                assert(cv.take(i + 1).last() == cv[i as int]);
            }
            if old_data[i].0 != *id {
                let o = clone_outputs(&old_data[i].1);
                kept.push((old_data[i].0, o));
                proof {
                    assert(cache_view(kept@) =~= spec_cache_clear(cv.take(i as int), *id).push(cv[i as int]));
                }
            }
            i = i + 1;
        }
        proof {
            assert(cv.take(old_data.len() as int) =~= cv);
        }
        self.cache_data = kept;
    }

    /// Records the outputs of node `id`, in place of any it had.
    pub fn add_to_cache(&mut self, id: ID, cache_data: Vec<(String, ID)>)
        ensures
            final(self)@ == spec_cache_clear(old(self)@, id).push((id, named_view(cache_data@))),
    {
        self.clear(&id);
        self.cache_data.push((id, cache_data));
        proof {
            assert(self@ =~= spec_cache_clear(old(self)@, id).push((id, named_view(cache_data@))));
        }
    }
}

/// The cache without the entries of the nodes in `gone`.
pub open spec fn spec_cache_purge(c: Seq<(ID, Seq<(Seq<char>, ID)>)>, gone: Set<ID>) -> Seq<(ID, Seq<(Seq<char>, ID)>)>
    decreases c.len(),
{
    if c.len() == 0 {
        c
    } else if gone.contains(c.last().0) {
        spec_cache_purge(c.drop_last(), gone)
    } else {
        spec_cache_purge(c.drop_last(), gone).push(c.last())
    }
}

/// There is an edge from node `u` to node `v`.
pub open spec fn spec_has_edge(es: Seq<EdgeV>, u: int, v: int) -> bool {
    exists|k: int| 0 <= k < es.len() && (#[trigger] es[k]).0 == u && es[k].1 == v
}

/// `p` is a path: each of its nodes has an edge to the next.
pub open spec fn spec_is_path(es: Seq<EdgeV>, p: Seq<int>) -> bool {
    &&& p.len() >= 1
    &&& forall|i: int| #![trigger p[i]] 0 <= i < p.len() - 1 ==> spec_has_edge(es, p[i], p[i + 1])
}

/// Node `b` can be reached from node `a` along the edges (every node from
/// itself).
pub open spec fn spec_reachable(es: Seq<EdgeV>, a: int, b: int) -> bool {
    exists|p: Seq<int>| spec_is_path(es, p) && p[0] == a && p.last() == b
}

/// The nodes of a project that lie downstream of node `id` in its graph:
/// `id` itself and every node reached from it along the edges.
pub open spec fn spec_downstream(s: StoreV, es: Seq<EdgeV>, id: ID) -> Set<ID> {
    let nmap = spec_node_index_map(spec_node_ids(s));
    Set::new(|k: ID| nmap.contains_key(k) && spec_reachable(es, nmap[id] as int, nmap[k] as int))
}

/// Purging one key more is purging the union.
pub proof fn lemma_purge_clear(c: Seq<(ID, Seq<(Seq<char>, ID)>)>, gone: Set<ID>, k: ID)
    ensures
        spec_cache_clear(spec_cache_purge(c, gone), k) == spec_cache_purge(c, gone.insert(k)),
    decreases c.len(),
{
    if c.len() > 0 {
        lemma_purge_clear(c.drop_last(), gone, k);
        let p = spec_cache_purge(c.drop_last(), gone);
        if !gone.contains(c.last().0) {
            assert(spec_cache_purge(c, gone).drop_last() =~= p);
        }
    }
}

/// Purging by equal sets gives the same cache.
pub proof fn lemma_purge_ext(c: Seq<(ID, Seq<(Seq<char>, ID)>)>, a: Set<ID>, b: Set<ID>)
    requires
        a =~= b,
    ensures
        spec_cache_purge(c, a) == spec_cache_purge(c, b),
{
}

/// Purging twice is purging the union.
pub proof fn lemma_purge_twice(c: Seq<(ID, Seq<(Seq<char>, ID)>)>, a: Set<ID>, b: Set<ID>)
    ensures
        spec_cache_purge(spec_cache_purge(c, a), b) == spec_cache_purge(c, a.union(b)),
    decreases c.len(),
{
    if c.len() > 0 {
        lemma_purge_twice(c.drop_last(), a, b);
        let p = spec_cache_purge(c.drop_last(), a);
        if !a.contains(c.last().0) {
            assert(spec_cache_purge(c, a).drop_last() =~= p);
        }
    }
}

/// The entry of `k` after appending an entry.
proof fn lemma_get_push(c: Seq<(ID, Seq<(Seq<char>, ID)>)>, e: (ID, Seq<(Seq<char>, ID)>), k: ID)
    ensures
        spec_cache_get(c.push(e), k) == (if e.0 == k { Some(e.1) } else { spec_cache_get(c, k) }),
{
    let d = c.push(e);
    assert(d.drop_last() =~= c);
    lemma_key_index(c, k);
    if e.0 != k && key_index(c, k) >= 0 {
        assert(d[key_index(c, k)] == c[key_index(c, k)]);
    }
}

/// What a purge leaves: a purged node has no entry; any other node keeps the
/// entry it had.
pub proof fn law_purge_get(c: Seq<(ID, Seq<(Seq<char>, ID)>)>, gone: Set<ID>, k: ID)
    ensures
        spec_cache_get(spec_cache_purge(c, gone), k) == (if gone.contains(k) { None } else { spec_cache_get(c, k) }),
    decreases c.len(),
{
    if c.len() > 0 {
        law_purge_get(c.drop_last(), gone, k);
        let p = spec_cache_purge(c.drop_last(), gone);
        let e = c.last();
        assert(c.drop_last().push(e) =~= c);
        lemma_get_push(c.drop_last(), e, k);
        if !gone.contains(e.0) {
            lemma_get_push(p, e, k);
        }
    }
}

/// The number of nodes not yet visited.
spec fn count_unvisited(v: Seq<bool>) -> nat
    decreases v.len(),
{
    if v.len() == 0 {
        0
    } else {
        count_unvisited(v.drop_last()) + if v.last() { 0nat } else { 1nat }
    }
}

proof fn lemma_count_visit(v: Seq<bool>, i: int)
    requires
        0 <= i < v.len(),
        !v[i],
    ensures
        count_unvisited(v.update(i, true)) < count_unvisited(v),
    decreases v.len(),
{
    let u = v.update(i, true);
    if i < v.len() - 1 {
        assert(u.drop_last() =~= v.drop_last().update(i, true));
        lemma_count_visit(v.drop_last(), i);
    } else {
        assert(u.drop_last() =~= v.drop_last());
    }
}

/// A set of nodes that holds `a` and is closed along the edges holds every
/// node reached from `a`.
proof fn lemma_closed_reach(es: Seq<EdgeV>, vis: Seq<bool>, a: int, p: Seq<int>)
    requires
        spec_is_path(es, p),
        p[0] == a,
        0 <= a < vis.len(),
        vis[a],
        forall|k: int| 0 <= k < es.len() && 0 <= (#[trigger] es[k]).0 < vis.len() && vis[es[k].0 as int] ==> es[k].1 < vis.len() && vis[es[k].1 as int],
    ensures
        0 <= p.last() < vis.len() && vis[p.last()],
    decreases p.len(),
{
    if p.len() > 1 {
        let q = p.drop_last();
        assert forall|i: int| #![trigger q[i]] 0 <= i < q.len() - 1 implies spec_has_edge(es, q[i], q[i + 1]) by {
            assert(p[i] == q[i]);
            assert(spec_has_edge(es, p[i], p[i + 1]));
        }
        lemma_closed_reach(es, vis, a, q);
        assert(spec_has_edge(es, p[p.len() - 2], p[p.len() - 1]));
        let k = choose|k: int| 0 <= k < es.len() && (#[trigger] es[k]).0 == p[p.len() - 2] && es[k].1 == p[p.len() - 1];
        assert(q.last() == p[p.len() - 2]);
    }
}

/// One more edge extends a path.
proof fn lemma_reach_step(es: Seq<EdgeV>, a: int, b: int, k: int)
    requires
        spec_reachable(es, a, b),
        0 <= k < es.len(),
        es[k].0 == b,
    ensures
        spec_reachable(es, a, es[k].1 as int),
{
    let p = choose|p: Seq<int>| spec_is_path(es, p) && p[0] == a && p.last() == b;
    let q = p.push(es[k].1 as int);
    assert forall|i: int| #![trigger q[i]] 0 <= i < q.len() - 1 implies spec_has_edge(es, q[i], q[i + 1]) by {
        if i < p.len() - 1 {
            assert(q[i] == p[i] && q[i + 1] == p[i + 1]);
            assert(spec_has_edge(es, p[i], p[i + 1]));
        } else {
            assert(q[i] == b);
            assert(es[k].0 == q[i] && es[k].1 == q[i + 1]);
        }
    }
    assert(spec_is_path(es, q) && q[0] == a && q.last() == es[k].1);
}

/// Every edge from `x` is listed among its outgoing edges.
proof fn lemma_out_edges_complete(es: Seq<EdgeV>, x: usize)
    ensures
        forall|k: int| 0 <= k < es.len() && (#[trigger] es[k]).0 == x ==>
            exists|i: int| 0 <= i < spec_out_edges(es, x).len() && #[trigger] spec_out_edges(es, x)[i] == (es[k].1, es[k].2),
    decreases es.len(),
{
    if es.len() > 0 {
        lemma_out_edges_complete(es.drop_last(), x);
        let rest = spec_out_edges(es.drop_last(), x);
        let e = es.last();
        assert forall|k: int| 0 <= k < es.len() && (#[trigger] es[k]).0 == x implies
            exists|i: int| 0 <= i < spec_out_edges(es, x).len() && #[trigger] spec_out_edges(es, x)[i] == (es[k].1, es[k].2) by {
            if k == es.len() - 1 {
                assert(spec_out_edges(es, x) == seq![(e.1, e.2)] + rest);
                assert(spec_out_edges(es, x)[0] == (e.1, e.2));
            } else {
                assert(es[k] == es.drop_last()[k]);
                let i = choose|i: int| 0 <= i < rest.len() && #[trigger] rest[i] == (es.drop_last()[k].1, es.drop_last()[k].2);
                if e.0 == x {
                    assert(spec_out_edges(es, x) == seq![(e.1, e.2)] + rest);
                    assert(spec_out_edges(es, x)[i + 1] == rest[i]);
                } else {
                    assert(spec_out_edges(es, x) == rest);
                }
            }
        }
    }
}

/// The set of node ids whose graph index is marked.
pub open spec fn spec_marked(nmap: Map<ID, usize>, v: Seq<bool>) -> Set<ID> {
    Set::new(|k: ID| nmap.contains_key(k) && 0 <= nmap[k] < v.len() && v[nmap[k] as int])
}

impl Cache {
    /// Purges the cache of a modified node and of every node downstream of
    /// it in the project's graph (the nodes whose renders it feeds). When the
    /// graph cannot be built, the cache is left as it is. A node missing from
    /// a graph that can be built is outside `requires`.
    pub fn node_modified(&mut self, id: &ID, store: &Store)
        requires
            store.nodes.len() + store.pipeline.links.len() < index_limit(),
            keys_unique(store@.nodes),
            spec_get_graph(store@) is Ok ==> has_key(store@.nodes, *id),
        ensures
            match spec_get_graph(store@) {
                Err(_) => final(self)@ == old(self)@,
                Ok(es) => final(self)@ == spec_cache_purge(old(self)@, spec_downstream(store@, es, *id)),
            },
    {
        assert(store@ == (StoreV { links: store.pipeline.links@, ..store@ }));
        let (graph, node_id_to_index) = match store.pipeline.get_graph(store) {
            Ok(p) => p,
            Err(_) => return,
        };
        let ghost sv = store@;
        let ghost es = graph_edges(graph);
        let ghost ids = spec_node_ids(sv);
        let ghost nmap = spec_node_index_map(ids);
        let ghost n = store.nodes.len() as int;
        let ghost c0 = self@;
        proof {
            crate::assoc::lemma_has_key_iff(sv.nodes, *id);
            let i0 = choose|j: int| 0 <= j < sv.nodes.len() && (#[trigger] sv.nodes[j]).0 == *id;
            lemma_index_of(ids, *id);
            assert(ids[i0] == *id);
            crate::pipeline::lemma_graph_edges(sv, es);
        }
        let ghost a = nmap[*id] as int;
        proof {
            let p0 = seq![a];
            assert(spec_is_path(es, p0) && p0[0] == a && p0.last() == a);
            assert(spec_reachable(es, a, a));
        }
        self.clear(id);
        proof {
            lemma_purge_none(c0);
            lemma_purge_clear(c0, Set::empty(), *id);
        }
        let mut visited: Vec<bool> = Vec::new();
        let mut i: usize = 0;
        while i < store.nodes.len()
            invariant
                i <= store.nodes.len(),
                visited@.len() == i,
                forall|k: int| 0 <= k < i ==> !(#[trigger] visited@[k]),
            decreases store.nodes.len() - i,
        {
            visited.push(false);
            i = i + 1;
        }
        let ghost gone0 = Set::<ID>::empty().insert(*id);
        proof {
            assert(spec_marked(nmap, visited@) =~= Set::<ID>::empty());
            assert(gone0.union(spec_marked(nmap, visited@)) =~= gone0);
        }
        let mut nodes_to_clear: Vec<ID> = Vec::new();
        nodes_to_clear.push(*id);
        assert(nodes_to_clear@[0] == *id);
        while nodes_to_clear.len() > 0
            invariant
                sv == store@,
                ids == spec_node_ids(sv),
                nmap == spec_node_index_map(ids),
                n == store.nodes.len(),
                ids.len() == n,
                keys_unique(sv.nodes),
                store.nodes.len() + store.pipeline.links.len() < index_limit(),
                es == graph_edges(graph),
                graph_node_count(graph) == n,
                graph_in_limits(graph),
                bimap_pairs(node_id_to_index) == nmap,
                nmap.contains_key(*id),
                a == nmap[*id] as int,
                0 <= a < n,
                forall|k: int| 0 <= k < es.len() ==> (#[trigger] es[k]).0 < n && es[k].1 < n,
                visited@.len() == n,
                forall|t: int| 0 <= t < n && #[trigger] visited@[t] ==> spec_reachable(es, a, t),
                forall|q: int| 0 <= q < nodes_to_clear@.len() ==> nmap.contains_key(#[trigger] nodes_to_clear@[q])
                    && spec_reachable(es, a, nmap[nodes_to_clear@[q]] as int),
                forall|k: int| 0 <= k < es.len() && #[trigger] visited@[es[k].0 as int] ==>
                    visited@[es[k].1 as int] || nodes_to_clear@.contains(ids[es[k].1 as int]),
                visited@[a] || nodes_to_clear@.contains(*id),
                self@ == spec_cache_purge(c0, gone0.union(spec_marked(nmap, visited@))),
            decreases count_unvisited(visited@), nodes_to_clear@.len(),
        {
            let ghost stack0 = nodes_to_clear@;
            let node = nodes_to_clear.pop().unwrap();
            proof {
                assert(stack0 == nodes_to_clear@.push(node));
                assert(stack0[stack0.len() - 1] == node);
                lemma_index_of(ids, node);
            }
            let idx = match bimap_get_by_left(&node_id_to_index, node) {
                Some(x) => x,
                None => {
                    return vstd::pervasive::unreached();
                },
            };
            proof {
                lemma_index_of(ids, node);
                assert(ids[idx as int] == node);
                assert forall|k: int| 0 <= k < es.len() && #[trigger] visited@[es[k].0 as int] implies
                    visited@[es[k].1 as int] || nodes_to_clear@.contains(ids[es[k].1 as int]) || ids[es[k].1 as int] == node by {
                    if stack0.contains(ids[es[k].1 as int]) && ids[es[k].1 as int] != node {
                        let w = choose|w: int| 0 <= w < stack0.len() && stack0[w] == ids[es[k].1 as int];
                        assert(w < stack0.len() - 1);
                        assert(nodes_to_clear@[w] == stack0[w]);
                    }
                }
                if *id != node && stack0.contains(*id) {
                    let w = choose|w: int| 0 <= w < stack0.len() && stack0[w] == *id;
                    assert(nodes_to_clear@[w] == stack0[w]);
                }
            }
            if visited[idx] {
                proof {
                    assert forall|k: int| 0 <= k < es.len() && #[trigger] visited@[es[k].0 as int] implies
                        visited@[es[k].1 as int] || nodes_to_clear@.contains(ids[es[k].1 as int]) by {
                        if ids[es[k].1 as int] == node {
                            crate::pipeline::lemma_unique_index(sv, es[k].1 as int);
                            assert(es[k].1 as int == idx as int);
                        }
                    }
                }
                continue;
            }
            let ghost self_before = self@;
            self.clear(&node);
            let ghost stack1 = nodes_to_clear@;
            let edges_out = graph_out_edges(&graph, idx);
            proof {
                crate::pipeline::lemma_out_edges(es, idx);
                lemma_out_edges_complete(es, idx);
            }
            let mut q: usize = 0;
            while q < edges_out.len()
                invariant
                    q <= edges_out.len(),
                    edges_out@.len() == spec_out_edges(es, idx).len(),
                    forall|i: int| 0 <= i < edges_out@.len() ==> (#[trigger] edges_out@[i]).0 == spec_out_edges(es, idx)[i].0,
                    forall|i: int| 0 <= i < spec_out_edges(es, idx).len() ==> spec_edge_from(es, idx, #[trigger] spec_out_edges(es, idx)[i]),
                    bimap_pairs(node_id_to_index) == nmap,
                    nmap == spec_node_index_map(ids),
                    ids.len() == n,
                    n == store.nodes.len(),
                    keys_unique(sv.nodes),
                    sv == store@,
                    ids == spec_node_ids(sv),
                    forall|k: int| 0 <= k < es.len() ==> (#[trigger] es[k]).0 < n && es[k].1 < n,
                    spec_reachable(es, a, idx as int),
                    forall|q2: int| 0 <= q2 < nodes_to_clear@.len() ==> nmap.contains_key(#[trigger] nodes_to_clear@[q2])
                        && spec_reachable(es, a, nmap[nodes_to_clear@[q2]] as int),
                    forall|i: int| 0 <= i < q ==> nodes_to_clear@.contains(ids[(#[trigger] spec_out_edges(es, idx)[i]).0 as int]),
                    nodes_to_clear@.len() >= stack1.len(),
                    forall|q2: int| 0 <= q2 < stack1.len() ==> nodes_to_clear@[q2] == stack1[q2],
                decreases edges_out.len() - q,
            {
                let t = edges_out[q].0;
                proof {
                    assert(spec_edge_from(es, idx, spec_out_edges(es, idx)[q as int]));
                    let k = choose|k: int| 0 <= k < es.len() && (#[trigger] es[k]).0 == idx && spec_out_edges(es, idx)[q as int] == (es[k].1, es[k].2);
                    lemma_reach_step(es, a, idx as int, k);
                    crate::pipeline::lemma_unique_index(sv, t as int);
                    lemma_index_of(ids, ids[t as int]);
                }
                let to_node = match bimap_get_by_right(&node_id_to_index, t) {
                    Some(k) => k,
                    None => {
                        proof {
                            assert(nmap[ids[t as int]] == t);
                        }
                        return vstd::pervasive::unreached();
                    },
                };
                proof {
                    lemma_index_of(ids, to_node);
                }
                let ghost before = nodes_to_clear@;
                nodes_to_clear.push(to_node);
                proof {
                    assert(nodes_to_clear@[before.len() as int] == to_node);
                    assert forall|i: int| 0 <= i < q + 1 implies nodes_to_clear@.contains(ids[(#[trigger] spec_out_edges(es, idx)[i]).0 as int]) by {
                        if i < q {
                            let w = choose|w: int| 0 <= w < before.len() && before[w] == ids[spec_out_edges(es, idx)[i].0 as int];
                            assert(nodes_to_clear@[w] == before[w]);
                        }
                    }
                }
                q = q + 1;
            }
            let ghost vis_old = visited@;
            visited.set(idx, true);
            proof {
                lemma_count_visit(vis_old, idx as int);
                assert forall|k: int| 0 <= k < es.len() && #[trigger] visited@[es[k].0 as int] implies
                    visited@[es[k].1 as int] || nodes_to_clear@.contains(ids[es[k].1 as int]) by {
                    if es[k].0 == idx {
                        let i = choose|i: int| 0 <= i < spec_out_edges(es, idx).len() && #[trigger] spec_out_edges(es, idx)[i] == (es[k].1, es[k].2);
                    } else {
                        assert(vis_old[es[k].0 as int]);
                        if ids[es[k].1 as int] == node {
                            crate::pipeline::lemma_unique_index(sv, es[k].1 as int);
                        } else if nodes_to_clear@.len() >= stack1.len() && stack1.contains(ids[es[k].1 as int]) {
                            let w = choose|w: int| 0 <= w < stack1.len() && stack1[w] == ids[es[k].1 as int];
                            assert(nodes_to_clear@[w] == stack1[w]);
                        }
                    }
                }
                if *id != node && stack1.contains(*id) {
                    let w = choose|w: int| 0 <= w < stack1.len() && stack1[w] == *id;
                    assert(nodes_to_clear@[w] == stack1[w]);
                }
                lemma_purge_clear(c0, gone0.union(spec_marked(nmap, vis_old)), node);
                assert forall|k: ID| #[trigger] gone0.union(spec_marked(nmap, vis_old)).insert(node).contains(k)
                    <==> gone0.union(spec_marked(nmap, visited@)).contains(k) by {
                    if nmap.contains_key(k) && nmap[k] == idx {
                        lemma_index_of(ids, k);
                    }
                }
                lemma_purge_ext(c0, gone0.union(spec_marked(nmap, vis_old)).insert(node), gone0.union(spec_marked(nmap, visited@)));
            }
        }
        proof {
            let vs = spec_marked(nmap, visited@);
            let d = spec_downstream(sv, es, *id);
            assert forall|k: int| 0 <= k < es.len() && 0 <= (#[trigger] es[k]).0 < visited@.len() && visited@[es[k].0 as int]
                implies es[k].1 < visited@.len() && visited@[es[k].1 as int] by {
            }
            assert forall|k: ID| #[trigger] d.contains(k) implies vs.contains(k) by {
                let p = choose|p: Seq<int>| spec_is_path(es, p) && p[0] == a && p.last() == nmap[k] as int;
                lemma_closed_reach(es, visited@, a, p);
                lemma_index_of(ids, k);
            }
            assert forall|k: ID| #[trigger] gone0.union(vs).contains(k) <==> d.contains(k) by {
                if k == *id {
                    assert(spec_reachable(es, a, a));
                }
                if vs.contains(k) {
                    lemma_index_of(ids, k);
                }
            }
            lemma_purge_ext(c0, gone0.union(vs), d);
        }
    }
}

/// The first `n` nodes of a project that import the clip `(clip_id,
/// clip_type)`, by id.
pub open spec fn spec_clip_importers(s: StoreV, clip_id: ID, clip_type: ClipType, n: int) -> Set<ID> {
    Set::new(|k: ID| exists|i: int| 0 <= i < n && i < s.nodes.len() && (#[trigger] s.nodes[i]).0 == k
        && s.nodes[i].1.node_type == media_import_node::IDENTIFIER@
        && spec_clip_prop(s.nodes[i].1.properties, media_import_node::INPUT_CLIP@) == Some(ClipIdentifier { id: clip_id, clip_type }))
}

/// The nodes downstream of any of the given nodes.
pub open spec fn spec_downstream_of_all(s: StoreV, es: Seq<EdgeV>, starts: Set<ID>) -> Set<ID> {
    Set::new(|k: ID| exists|m: ID| starts.contains(m) && #[trigger] spec_downstream(s, es, m).contains(k))
}

impl Cache {
    /// Purges the cache of every node that imports the modified clip, and of
    /// every node downstream of one. When the graph cannot be built, the cache
    /// is left as it is.
    pub fn clip_modified(&mut self, clip_id: &ID, clip_type: ClipType, store: &Store)
        requires
            store.nodes.len() + store.pipeline.links.len() < index_limit(),
            keys_unique(store@.nodes),
        ensures
            match spec_get_graph(store@) {
                Err(_) => final(self)@ == old(self)@,
                Ok(es) => final(self)@ == spec_cache_purge(old(self)@,
                    spec_downstream_of_all(store@, es, spec_clip_importers(store@, *clip_id, clip_type, store@.nodes.len() as int))),
            },
    {
        let ghost c0 = self@;
        let ghost sv = store@;
        proof {
            lemma_purge_none(c0);
            if let Ok(es) = spec_get_graph(sv) {
                assert(spec_downstream_of_all(sv, es, spec_clip_importers(sv, *clip_id, clip_type, 0)) =~= Set::<ID>::empty());
            }
        }
        let mut i: usize = 0;
        while i < store.nodes.len()
            invariant
                i <= store.nodes.len(),
                sv == store@,
                store.nodes.len() + store.pipeline.links.len() < index_limit(),
                keys_unique(store@.nodes),
                match spec_get_graph(sv) {
                    Err(_) => self@ == c0,
                    Ok(es) => self@ == spec_cache_purge(c0, spec_downstream_of_all(sv, es, spec_clip_importers(sv, *clip_id, clip_type, i as int))),
                },
            decreases store.nodes.len() - i,
        {
            let node = &store.nodes[i].1;
            let ghost before = self@;
            proof {
                assert(sv.nodes[i as int] == (store.nodes@[i as int].0, store.nodes@[i as int].1@));
            }
            let mut hit = false;
            if str_eq(node.node_type.as_str(), media_import_node::IDENTIFIER) {
                if let Some(c) = get_clip_property(&node.properties, media_import_node::INPUT_CLIP) {
                    if c.id == *clip_id && c.clip_type == clip_type {
                        proof {
                            crate::assoc::lemma_has_key_iff(sv.nodes, store.nodes@[i as int].0);
                        }
                        self.node_modified(&store.nodes[i].0, store);
                        hit = true;
                    }
                }
            }
            proof {
                if let Ok(es) = spec_get_graph(sv) {
                    let u0 = spec_downstream_of_all(sv, es, spec_clip_importers(sv, *clip_id, clip_type, i as int));
                    let u1 = spec_downstream_of_all(sv, es, spec_clip_importers(sv, *clip_id, clip_type, i + 1));
                    let key = store.nodes@[i as int].0;
                    if hit {
                        lemma_purge_twice(c0, u0, spec_downstream(sv, es, key));
                        assert forall|k: ID| #[trigger] u0.union(spec_downstream(sv, es, key)).contains(k) <==> u1.contains(k) by {
                            if u1.contains(k) {
                                let m = choose|m: ID| spec_clip_importers(sv, *clip_id, clip_type, i + 1).contains(m)
                                    && #[trigger] spec_downstream(sv, es, m).contains(k);
                                let j = choose|j: int| 0 <= j < i + 1 && j < sv.nodes.len() && (#[trigger] sv.nodes[j]).0 == m
                                    && sv.nodes[j].1.node_type == media_import_node::IDENTIFIER@
                                    && spec_clip_prop(sv.nodes[j].1.properties, media_import_node::INPUT_CLIP@) == Some(ClipIdentifier { id: *clip_id, clip_type });
                                if j < i {
                                    assert(spec_clip_importers(sv, *clip_id, clip_type, i as int).contains(m));
                                }
                            }
                            if u0.contains(k) {
                                let m = choose|m: ID| spec_clip_importers(sv, *clip_id, clip_type, i as int).contains(m)
                                    && #[trigger] spec_downstream(sv, es, m).contains(k);
                                let j = choose|j: int| 0 <= j < i && j < sv.nodes.len() && (#[trigger] sv.nodes[j]).0 == m
                                    && sv.nodes[j].1.node_type == media_import_node::IDENTIFIER@
                                    && spec_clip_prop(sv.nodes[j].1.properties, media_import_node::INPUT_CLIP@) == Some(ClipIdentifier { id: *clip_id, clip_type });
                                assert(spec_clip_importers(sv, *clip_id, clip_type, i + 1).contains(m));
                            }
                            if spec_downstream(sv, es, key).contains(k) {
                                assert(spec_clip_importers(sv, *clip_id, clip_type, i + 1).contains(key));
                            }
                        }
                        lemma_purge_ext(c0, u0.union(spec_downstream(sv, es, key)), u1);
                    } else {
                        assert forall|k: ID| #[trigger] u0.contains(k) <==> u1.contains(k) by {
                            if u1.contains(k) {
                                let m = choose|m: ID| spec_clip_importers(sv, *clip_id, clip_type, i + 1).contains(m)
                                    && #[trigger] spec_downstream(sv, es, m).contains(k);
                                let j = choose|j: int| 0 <= j < i + 1 && j < sv.nodes.len() && (#[trigger] sv.nodes[j]).0 == m
                                    && sv.nodes[j].1.node_type == media_import_node::IDENTIFIER@
                                    && spec_clip_prop(sv.nodes[j].1.properties, media_import_node::INPUT_CLIP@) == Some(ClipIdentifier { id: *clip_id, clip_type });
                                if j < i {
                                    assert(spec_clip_importers(sv, *clip_id, clip_type, i as int).contains(m));
                                }
                            }
                            if u0.contains(k) {
                                let m = choose|m: ID| spec_clip_importers(sv, *clip_id, clip_type, i as int).contains(m)
                                    && #[trigger] spec_downstream(sv, es, m).contains(k);
                                let j = choose|j: int| 0 <= j < i && j < sv.nodes.len() && (#[trigger] sv.nodes[j]).0 == m
                                    && sv.nodes[j].1.node_type == media_import_node::IDENTIFIER@
                                    && spec_clip_prop(sv.nodes[j].1.properties, media_import_node::INPUT_CLIP@) == Some(ClipIdentifier { id: *clip_id, clip_type });
                                assert(spec_clip_importers(sv, *clip_id, clip_type, i + 1).contains(m));
                            }
                        }
                        lemma_purge_ext(c0, u0, u1);
                    }
                }
            }
            i = i + 1;
        }
    }
}

/// Purging nothing leaves the cache as it is.
proof fn lemma_purge_none(c: Seq<(ID, Seq<(Seq<char>, ID)>)>)
    ensures
        spec_cache_purge(c, Set::empty()) =~= c,
    decreases c.len(),
{
    if c.len() > 0 {
        lemma_purge_none(c.drop_last());
        assert(c.drop_last().push(c.last()) =~= c);
    }
}

/// After a change to node `id` (a node of the project), reading the cache
/// gives nothing for `id` and for every node reachable from it, and the old
/// entry for every other node.
pub proof fn law_node_modified_purges_downstream(
    c: Seq<(ID, Seq<(Seq<char>, ID)>)>,
    s: StoreV,
    es: Seq<EdgeV>,
    id: ID,
    x: ID,
)
    requires
        has_key(s.nodes, id),
    ensures
        spec_downstream(s, es, id).contains(id),
        spec_cache_get(spec_cache_purge(c, spec_downstream(s, es, id)), x)
            == (if spec_downstream(s, es, id).contains(x) { None } else { spec_cache_get(c, x) }),
{
    let ids = spec_node_ids(s);
    crate::assoc::lemma_has_key_iff(s.nodes, id);
    let i0 = choose|j: int| 0 <= j < s.nodes.len() && (#[trigger] s.nodes[j]).0 == id;
    lemma_index_of(ids, id);
    assert(ids[i0] == id);
    let a = spec_node_index_map(ids)[id] as int;
    let p0 = seq![a];
    assert(spec_is_path(es, p0) && p0[0] == a && p0.last() == a);
    law_purge_get(c, spec_downstream(s, es, id), x);
}

} // verus!
