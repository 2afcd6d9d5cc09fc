//! The persistent state of a project: nodes, clips and links.
use vstd::prelude::*;
use crate::ID;
use crate::assoc::{key_index, has_key, assoc_get, assoc_insert, assoc_remove, keys_unique, lemma_key_index, id_map_view, id_index};
use crate::clip::{SourceClip, SourceClipV, CompositedClip, ClipType, ClipIdentifier};
use crate::node::{Node, NodeValue, PropertyValue, PropertyValueV, props_view};
use crate::pipeline::{Pipeline, Link, LinkEndpoint};
use crate::node::{get_property, spec_prop_get, spec_clip_prop, get_clip_property};
use crate::nodes::output_node;
use crate::text::str_eq;

verus! {

/// The clips of a project, keyed by id.
#[derive(Debug)]
pub struct ClipStore {
    pub source: Vec<(ID, SourceClip)>,
    pub composited: Vec<(ID, CompositedClip)>,
}

/// A project: nodes keyed by id, clips and links.
#[derive(Debug)]
pub struct Store {
    pub nodes: Vec<(ID, Node)>,
    pub clips: ClipStore,
    pub pipeline: Pipeline,
}

/// The value of a project.
pub struct StoreV {
    pub nodes: Seq<(ID, NodeValue)>,
    pub source: Seq<(ID, SourceClipV)>,
    pub composited: Seq<(ID, CompositedClip)>,
    pub links: Seq<Link>,
}

impl View for CompositedClip {
    type V = CompositedClip;

    open spec fn view(&self) -> CompositedClip {
        *self
    }
}

impl View for Store {
    type V = StoreV;

    open spec fn view(&self) -> StoreV {
        StoreV {
            nodes: id_map_view(self.nodes@),
            source: id_map_view(self.clips.source@),
            composited: self.clips.composited@,
            links: self.pipeline.links@,
        }
    }
}

/// The maps of a project hold each key once.
pub open spec fn spec_store_wf(s: StoreV) -> bool {
    keys_unique(s.nodes) && keys_unique(s.source) && keys_unique(s.composited)
}

impl ClipStore {
    /// No clips.
    pub fn new() -> (r: Self)
        ensures
            r.source@.len() == 0,
            r.composited@.len() == 0,
    {
        ClipStore { source: Vec::new(), composited: Vec::new() }
    }
}

impl Store {
    /// An empty project.
    pub fn new() -> (r: Self)
        ensures
            r@.nodes == Seq::<(ID, NodeValue)>::empty(),
            r@.source == Seq::<(ID, SourceClipV)>::empty(),
            r@.composited == Seq::<(ID, CompositedClip)>::empty(),
            r@.links == Seq::<Link>::empty(),
    {
        let r = Store { nodes: Vec::new(), clips: ClipStore::new(), pipeline: Pipeline::new() };
        assert(r@.nodes =~= Seq::<(ID, NodeValue)>::empty());
        assert(r@.source =~= Seq::<(ID, SourceClipV)>::empty());
        assert(r@.composited =~= Seq::<(ID, CompositedClip)>::empty());
        r
    }
}


fn clone_nodes(v: &Vec<(ID, Node)>) -> (r: Vec<(ID, Node)>)
    ensures
        id_map_view(r@) == id_map_view(v@),
{
    let mut r: Vec<(ID, Node)> = Vec::new();
    let mut i: usize = 0;
    while i < v.len()
        invariant
            i <= v.len(),
            id_map_view(r@) =~= id_map_view(v@.take(i as int)),
        decreases v.len() - i,
    {
        let ghost rv = id_map_view(r@);
        r.push((v[i].0, v[i].1.clone()));
        assert(id_map_view(r@) =~= rv.push(id_map_view(v@)[i as int]));
        assert(id_map_view(v@.take(i + 1)) =~= id_map_view(v@.take(i as int)).push(id_map_view(v@)[i as int]));
        i = i + 1;
    }
    assert(v@.take(v.len() as int) =~= v@);
    r
}

fn clone_sources(v: &Vec<(ID, SourceClip)>) -> (r: Vec<(ID, SourceClip)>)
    ensures
        id_map_view(r@) == id_map_view(v@),
{
    let mut r: Vec<(ID, SourceClip)> = Vec::new();
    let mut i: usize = 0;
    while i < v.len()
        invariant
            i <= v.len(),
            id_map_view(r@) =~= id_map_view(v@.take(i as int)),
        decreases v.len() - i,
    {
        let ghost rv = id_map_view(r@);
        r.push((v[i].0, v[i].1.clone()));
        assert(id_map_view(r@) =~= rv.push(id_map_view(v@)[i as int]));
        assert(id_map_view(v@.take(i + 1)) =~= id_map_view(v@.take(i as int)).push(id_map_view(v@)[i as int]));
        i = i + 1;
    }
    assert(v@.take(v.len() as int) =~= v@);
    r
}

fn clone_composited(v: &Vec<(ID, CompositedClip)>) -> (r: Vec<(ID, CompositedClip)>)
    ensures
        r@ == v@,
{
    let mut r: Vec<(ID, CompositedClip)> = Vec::new();
    let mut i: usize = 0;
    while i < v.len()
        invariant
            i <= v.len(),
            r@ =~= v@.take(i as int),
        decreases v.len() - i,
    {
        r.push((v[i].0, v[i].1.clone()));
        i = i + 1;
    }
    assert(v@.take(v.len() as int) =~= v@);
    r
}

impl Clone for Store {
    fn clone(&self) -> (r: Self)
        ensures
            r@ == self@,
    {
        Store {
            nodes: clone_nodes(&self.nodes),
            clips: ClipStore { source: clone_sources(&self.clips.source), composited: clone_composited(&self.clips.composited) },
            pipeline: self.pipeline.clone(),
        }
    }
}

/// A link with every end at node `o` moved to node `n`.
pub open spec fn spec_rename_link(l: Link, o: ID, n: ID) -> Link {
    Link {
        from: LinkEndpoint { node_id: if l.from.node_id == o { n } else { l.from.node_id }, property: l.from.property },
        to: LinkEndpoint { node_id: if l.to.node_id == o { n } else { l.to.node_id }, property: l.to.property },
    }
}

/// A property value, with a reference to clip `o` of type `t` made a reference to clip `n`.
pub open spec fn spec_rename_clip_value(v: PropertyValueV, o: ID, n: ID, t: ClipType) -> PropertyValueV {
    match v {
        PropertyValueV::Clip(c) => if c.clip_type == t && c.id == o {
            PropertyValueV::Clip(ClipIdentifier { id: n, clip_type: t })
        } else {
            v
        },
        _ => v,
    }
}

pub open spec fn spec_rename_clip_props(ps: Seq<(Seq<char>, PropertyValueV)>, o: ID, n: ID, t: ClipType) -> Seq<(Seq<char>, PropertyValueV)> {
    ps.map_values(|e: (Seq<char>, PropertyValueV)| (e.0, spec_rename_clip_value(e.1, o, n, t)))
}

pub open spec fn spec_rename_clip_nodes(ns: Seq<(ID, NodeValue)>, o: ID, n: ID, t: ClipType) -> Seq<(ID, NodeValue)> {
    ns.map_values(|e: (ID, NodeValue)| (e.0, NodeValue { properties: spec_rename_clip_props(e.1.properties, o, n, t), ..e.1 }))
}

/// The first node (in order) of the group that is an output node with a clip,
/// and its clip's id.
pub open spec fn spec_group_clip_at(ns: Seq<(ID, NodeValue)>, group: ID, i: int) -> bool {
    &&& ns[i].1.group == group
    &&& ns[i].1.node_type == output_node::IDENTIFIER@
    &&& spec_clip_prop(ns[i].1.properties, output_node::INPUT_CLIP@) is Some
}

/// A source clip as a client sees it: without the locations and the device
/// that only the server keeps.
pub open spec fn spec_client_source(c: SourceClipV) -> SourceClipV {
    SourceClipV { file_location: None, original_device_id: None, thumbnail_location: None, ..c }
}

impl Store {
    /// Moves the node `original_node_id` to the id `new_node_id`, and the
    /// links at it with it; nothing changes when there is no such node.
    pub fn move_node(&mut self, original_node_id: &ID, new_node_id: &ID)
        ensures
            has_key(old(self)@.nodes, *original_node_id) ==> final(self)@ == (StoreV {
                nodes: assoc_insert(
                    assoc_remove(old(self)@.nodes, *original_node_id),
                    *new_node_id,
                    NodeValue { id: *new_node_id, ..assoc_get(old(self)@.nodes, *original_node_id) },
                ),
                links: old(self)@.links.map_values(|l: Link| spec_rename_link(l, *original_node_id, *new_node_id)),
                ..old(self)@
            }),
            !has_key(old(self)@.nodes, *original_node_id) ==> final(self)@ == old(self)@,
    {
        let ghost s = self@;
        let o = *original_node_id;
        let n = *new_node_id;
        match id_index(&self.nodes, o) {
            None => {},
            Some(i) => {
                let ghost nv = self@.nodes;
                let (_, mut node) = self.nodes.remove(i);
                assert(self@.nodes =~= nv.remove(i as int));
                node.id = n;
                let ghost rv = self@.nodes;
                proof {
                    lemma_key_index(rv, n);
                }
                match id_index(&self.nodes, n) {
                    Some(j) => {
                        self.nodes.set(j, (n, node));
                        assert(self@.nodes =~= rv.update(j as int, (n, node@)));
                    },
                    None => {
                        self.nodes.push((n, node));
                        assert(self@.nodes =~= rv.push((n, node@)));
                    },
                }
                let ghost mid = self@;
                let mut k: usize = 0;
                while k < self.pipeline.links.len()
                    invariant
                        k <= self.pipeline.links.len(),
                        self@.nodes == mid.nodes,
                        self@.source == s.source,
                        self@.composited == s.composited,
                        self.pipeline.links@.len() == s.links.len(),
                        forall|q: int| 0 <= q < k ==> self.pipeline.links@[q] == spec_rename_link(s.links[q], o, n),
                        forall|q: int| k <= q < s.links.len() ==> self.pipeline.links@[q] == s.links[q],
                    decreases self.pipeline.links.len() - k,
                {
                    let mut l = self.pipeline.links[k].clone();
                    if l.from.node_id == o {
                        l.from.node_id = n;
                    }
                    if l.to.node_id == o {
                        l.to.node_id = n;
                    }
                    let ghost lv = self.pipeline.links@;
                    self.pipeline.links.set(k, l);
                    assert(self.pipeline.links@ == lv.update(k as int, l));
                    k = k + 1;
                }
                assert(self@.links =~= s.links.map_values(|l: Link| spec_rename_link(l, o, n)));
            },
        }
    }

    /// Moves the clip `original_clip_id` of the given type to the id
    /// `new_clip_id`, and every node property that refers to it with it;
    /// nothing changes when there is no such clip.
    pub fn move_clip(&mut self, original_clip_id: &ID, new_clip_id: &ID, clip_type: ClipType)
        ensures
            ({
                let s = old(self)@;
                let o = *original_clip_id;
                let n = *new_clip_id;
                match clip_type {
                    ClipType::Source => if has_key(s.source, o) {
                        final(self)@ == (StoreV {
                            source: assoc_insert(assoc_remove(s.source, o), n, SourceClipV { id: n, ..assoc_get(s.source, o) }),
                            nodes: spec_rename_clip_nodes(s.nodes, o, n, clip_type),
                            ..s
                        })
                    } else {
                        final(self)@ == s
                    },
                    ClipType::Composited => if has_key(s.composited, o) {
                        final(self)@ == (StoreV {
                            composited: assoc_insert(assoc_remove(s.composited, o), n, CompositedClip { id: n, ..assoc_get(s.composited, o) }),
                            nodes: spec_rename_clip_nodes(s.nodes, o, n, clip_type),
                            ..s
                        })
                    } else {
                        final(self)@ == s
                    },
                }
            }),
    {
        let ghost s = self@;
        let o = *original_clip_id;
        let n = *new_clip_id;
        let found = match clip_type {
            ClipType::Source => {
                match id_index(&self.clips.source, o) {
                    None => false,
                    Some(i) => {
                        let ghost sv = self@.source;
                        let (_, mut clip) = self.clips.source.remove(i);
                        assert(self@.source =~= sv.remove(i as int));
                        clip.id = n;
                        let ghost rv = self@.source;
                        proof {
                            lemma_key_index(rv, n);
                        }
                        match id_index(&self.clips.source, n) {
                            Some(j) => {
                                self.clips.source.set(j, (n, clip));
                                assert(self@.source =~= rv.update(j as int, (n, clip@)));
                            },
                            None => {
                                self.clips.source.push((n, clip));
                                assert(self@.source =~= rv.push((n, clip@)));
                            },
                        }
                        true
                    },
                }
            },
            ClipType::Composited => {
                proof {
                    assert(id_map_view(self.clips.composited@) =~= self.clips.composited@);
                }
                match id_index(&self.clips.composited, o) {
                    None => false,
                    Some(i) => {
                        let ghost cv = self@.composited;
                        let (_, mut clip) = self.clips.composited.remove(i);
                        assert(self@.composited =~= cv.remove(i as int));
                        clip.id = n;
                        let ghost rv = self@.composited;
                        proof {
                            lemma_key_index(rv, n);
                            assert(id_map_view(self.clips.composited@) =~= self.clips.composited@);
                        }
                        match id_index(&self.clips.composited, n) {
                            Some(j) => {
                                self.clips.composited.set(j, (n, clip));
                                assert(self@.composited =~= rv.update(j as int, (n, clip)));
                            },
                            None => {
                                self.clips.composited.push((n, clip));
                                assert(self@.composited =~= rv.push((n, clip)));
                            },
                        }
                        true
                    },
                }
            },
        };
        if found {
            let ghost ns = self@.nodes;
            let ghost mid = self@;
            let mut k: usize = 0;
            while k < self.nodes.len()
                invariant
                    k <= self.nodes.len(),
                    self@.source == mid.source,
                    self@.composited == mid.composited,
                    self@.links == mid.links,
                    ns == mid.nodes,
                    self@.nodes.len() == ns.len(),
                    forall|q: int| 0 <= q < k ==> #[trigger] self@.nodes[q] == spec_rename_clip_nodes(ns, o, n, clip_type)[q],
                    forall|q: int| k <= q < ns.len() ==> #[trigger] self@.nodes[q] == ns[q],
                decreases self.nodes.len() - k,
            {
                let mut node = self.nodes[k].1.clone();
                let key = self.nodes[k].0;
                assert(self@.nodes[k as int] == (key, node@));
                let ghost ps = props_view(node.properties@);
                let ghost base = node@;
                let mut p: usize = 0;
                while p < node.properties.len()
                    invariant
                        p <= node.properties.len(),
                        node.position == base.position,
                        node.id == base.id,
                        node.node_type@ == base.node_type,
                        node.group == base.group,
                        node.properties@.len() == ps.len(),
                        forall|q: int| 0 <= q < p ==> #[trigger] props_view(node.properties@)[q] == spec_rename_clip_props(ps, o, n, clip_type)[q],
                        forall|q: int| p <= q < ps.len() ==> #[trigger] props_view(node.properties@)[q] == ps[q],
                    decreases node.properties.len() - p,
                {
                    proof {
                        assert(props_view(node.properties@)[p as int] == ps[p as int]);
                        assert(ps[p as int] == (node.properties@[p as int].0@, node.properties@[p as int].1@));
                    }
                    let renamed = match &node.properties[p].1 {
                        PropertyValue::Clip(c) => c.clip_type == clip_type && c.id == o,
                        _ => false,
                    };
                    if !renamed {
                        assert(spec_rename_clip_props(ps, o, n, clip_type)[p as int] == ps[p as int]);
                    }
                    if renamed {
                        let name = node.properties[p].0.clone();
                        let ghost pv = node.properties@;
                        node.properties.set(p, (name, PropertyValue::Clip(ClipIdentifier { id: n, clip_type })));
                        assert(node.properties@ == pv.update(p as int, (name, PropertyValue::Clip(ClipIdentifier { id: n, clip_type }))));
                        assert(props_view(node.properties@) =~= props_view(pv).update(p as int, (name@, PropertyValueV::Clip(ClipIdentifier { id: n, clip_type }))));
                    }
                    p = p + 1;
                }
                assert(props_view(node.properties@) =~= spec_rename_clip_props(ps, o, n, clip_type));
                                let ghost nv = self@.nodes;
                let ghost newv = node@;
                self.nodes.set(k, (key, node));
                assert(self@.nodes =~= nv.update(k as int, (key, newv)));
                k = k + 1;
            }
            assert(self@.nodes =~= spec_rename_clip_nodes(ns, o, n, clip_type));
        }
    }

    /// The composited clip of the first output node of the group, if any.
    pub fn get_clip_from_group(&self, group: ID) -> (r: Option<ID>)
        ensures
            match r {
                Some(c) => exists|i: int| 0 <= i < self@.nodes.len() && spec_group_clip_at(self@.nodes, group, i)
                    && spec_clip_prop(self@.nodes[i].1.properties, output_node::INPUT_CLIP@)->0.id == c
                    && forall|j: int| 0 <= j < i ==> !spec_group_clip_at(self@.nodes, group, j),
                None => forall|i: int| 0 <= i < self@.nodes.len() ==> !spec_group_clip_at(self@.nodes, group, i),
            },
    {
        let mut i: usize = 0;
        while i < self.nodes.len()
            invariant
                i <= self.nodes.len(),
                forall|j: int| 0 <= j < i ==> !spec_group_clip_at(self@.nodes, group, j),
            decreases self.nodes.len() - i,
        {
            let node = &self.nodes[i].1;
            assert(self@.nodes[i as int].1 == node@);
            if node.group == group && str_eq(node.node_type.as_str(), output_node::IDENTIFIER) {
                match get_clip_property(&node.properties, output_node::INPUT_CLIP) {
                    Some(c) => {
                        assert(spec_group_clip_at(self@.nodes, group, i as int));
                        return Some(c.id);
                    },
                    None => {},
                }
            }
            i = i + 1;
        }
        None
    }

    /// The source clip `clip_id`, or the error `Clip not found` when the
    /// project has none.
    pub fn get_source_clip(&self, clip_id: ID) -> (r: Result<SourceClip, String>)
        ensures
            match r {
                Ok(c) => has_key(self@.source, clip_id) && c@ == assoc_get(self@.source, clip_id),
                Err(e) => !has_key(self@.source, clip_id) && e@ == "Clip not found"@,
            },
    {
        match id_index(&self.clips.source, clip_id) {
            Some(i) => {
                assert(self@.source[i as int] == (self.clips.source@[i as int].0, self.clips.source@[i as int].1@));
                Ok(self.clips.source[i].1.clone())
            },
            None => Err(crate::text::owned("Clip not found")),
        }
    }

    /// The project as a client sees it: source clips lose their server
    /// locations, device and thumbnail.
    pub fn get_client_data(&self) -> (r: Self)
        ensures
            r@ == (StoreV {
                source: self@.source.map_values(|e: (ID, SourceClipV)| (e.0, spec_client_source(e.1))),
                ..self@
            }),
    {
        let mut c = self.clone();
        let ghost sv = c@.source;
        let mut k: usize = 0;
        while k < c.clips.source.len()
            invariant
                k <= c.clips.source.len(),
                c@.nodes == self@.nodes,
                c@.composited == self@.composited,
                c@.links == self@.links,
                sv == self@.source,
                c@.source.len() == sv.len(),
                forall|q: int| 0 <= q < k ==> #[trigger] c@.source[q] == (sv[q].0, spec_client_source(sv[q].1)),
                forall|q: int| k <= q < sv.len() ==> #[trigger] c@.source[q] == sv[q],
            decreases c.clips.source.len() - k,
        {
            let mut clip = c.clips.source[k].1.clone();
            let key = c.clips.source[k].0;
            assert(c@.source[k as int] == (key, clip@));
            clip.file_location = None;
            clip.original_device_id = None;
            clip.thumbnail_location = None;
            let ghost cv = c@.source;
            let ghost newv = clip@;
            c.clips.source.set(k, (key, clip));
            assert(c@.source =~= cv.update(k as int, (key, newv)));
            k = k + 1;
        }
        assert(c@.source =~= sv.map_values(|e: (ID, SourceClipV)| (e.0, spec_client_source(e.1))));
        c
    }
}

/// Moving a clip to a new id leaves no property that names it by its old id.
pub proof fn law_move_clip_leaves_no_old_reference(ns: Seq<(ID, NodeValue)>, o: ID, n: ID, t: ClipType)
    requires
        o != n,
    ensures
        forall|i: int, j: int| 0 <= i < ns.len() && 0 <= j < ns[i].1.properties.len() ==>
            #[trigger] spec_rename_clip_nodes(ns, o, n, t)[i].1.properties[j].1 != PropertyValueV::Clip(ClipIdentifier { id: o, clip_type: t }),
{
    assert forall|i: int, j: int| 0 <= i < ns.len() && 0 <= j < ns[i].1.properties.len() implies
        #[trigger] spec_rename_clip_nodes(ns, o, n, t)[i].1.properties[j].1 != PropertyValueV::Clip(ClipIdentifier { id: o, clip_type: t }) by {
        let ps = ns[i].1.properties;
        assert(spec_rename_clip_nodes(ns, o, n, t)[i].1.properties == spec_rename_clip_props(ps, o, n, t));
        assert(spec_rename_clip_props(ps, o, n, t)[j] == (ps[j].0, spec_rename_clip_value(ps[j].1, o, n, t)));
    }
}

/// The client's copy of the project keeps each source clip, in order and
/// under its id, with its id, name, status, information and original file
/// location; it drops the clip's file location on the server, the device it
/// came from and its thumbnail location.
pub proof fn law_client_data_hides_server_fields(s: StoreV)
    ensures
        ({
            let c = s.source.map_values(|e: (ID, SourceClipV)| (e.0, spec_client_source(e.1)));
            &&& c.len() == s.source.len()
            &&& forall|i: int| 0 <= i < c.len() ==> {
                &&& (#[trigger] c[i]).0 == s.source[i].0
                &&& c[i].1.file_location is None
                &&& c[i].1.original_device_id is None
                &&& c[i].1.thumbnail_location is None
                &&& c[i].1.id == s.source[i].1.id
                &&& c[i].1.name == s.source[i].1.name
                &&& c[i].1.status == s.source[i].1.status
                &&& c[i].1.info == s.source[i].1.info
                &&& c[i].1.original_file_location == s.source[i].1.original_file_location
            }
        }),
{
}

/// The client's view of a project is its own client view.
pub proof fn law_client_data_is_stable(s: StoreV)
    ensures
        ({
            let c = s.source.map_values(|e: (ID, SourceClipV)| (e.0, spec_client_source(e.1)));
            c.map_values(|e: (ID, SourceClipV)| (e.0, spec_client_source(e.1))) == c
        }),
{
    let c = s.source.map_values(|e: (ID, SourceClipV)| (e.0, spec_client_source(e.1)));
    assert(c.map_values(|e: (ID, SourceClipV)| (e.0, spec_client_source(e.1))) =~= c);
}

} // verus!
