//! An abstract GStreamer pipeline: named elements and the links between their
//! pads, with the rewrites that turn it into a pipeline GStreamer can parse.
use vstd::prelude::*;
use crate::assoc::{key_index, has_key, assoc_get, assoc_insert, assoc_remove, keys_unique, lemma_key_index,
    lemma_has_key_iff, lemma_assoc_insert_entries, lemma_assoc_insert_unique, lemma_assoc_remove_unique, lemma_assoc_insert_keeps};
use crate::global::{uuid_hyphenated, uniq_id_string, is_uuid_text, id_to_string};
use crate::ID;
use crate::assoc::id_map_view;
use crate::clip::SourceClipV;
use crate::store::ClipStore;
use crate::node::{PipeableStreamType, spec_stream_name, spec_stream_linker};
use crate::text::{str_eq, starts_with, owned, cat, cat3, replace_backslashes, slashes_forward, u64_to_string, nat_decimal};

verus! {

/// A GStreamer element: its name, its factory and its properties.
pub struct AbstractNode {
    pub id: String,
    pub node_type: String,
    pub properties: Vec<(String, String)>,
}

/// One end of a link: an element, and optionally one of its pads.
pub struct AbstractLinkEndpoint {
    pub id: String,
    pub property: Option<String>,
}

/// A link from one element (pad) to another.
pub struct AbstractLink {
    pub from: AbstractLinkEndpoint,
    pub to: AbstractLinkEndpoint,
}

/// A pipeline: elements keyed by name, and links. `nodes` is a map held as a
/// list of entries, each key once.
pub struct AbstractPipeline {
    pub nodes: Vec<(String, AbstractNode)>,
    pub links: Vec<AbstractLink>,
}

/// The value of an element.
pub struct NodeV {
    pub id: Seq<char>,
    pub node_type: Seq<char>,
    pub properties: Seq<(Seq<char>, Seq<char>)>,
}

/// The value of a link endpoint.
pub struct EndpointV {
    pub id: Seq<char>,
    pub property: Option<Seq<char>>,
}

/// The value of a link.
pub struct LinkV {
    pub from: EndpointV,
    pub to: EndpointV,
}

/// The value of a pipeline.
pub struct PipelineV {
    pub nodes: Seq<(Seq<char>, NodeV)>,
    pub links: Seq<LinkV>,
}

pub open spec fn props_view(v: Seq<(String, String)>) -> Seq<(Seq<char>, Seq<char>)> {
    v.map_values(|p: (String, String)| (p.0@, p.1@))
}

pub open spec fn nodes_view(v: Seq<(String, AbstractNode)>) -> Seq<(Seq<char>, NodeV)> {
    v.map_values(|p: (String, AbstractNode)| (p.0@, p.1@))
}

pub open spec fn links_view(v: Seq<AbstractLink>) -> Seq<LinkV> {
    v.map_values(|l: AbstractLink| l@)
}

impl View for AbstractNode {
    type V = NodeV;

    open spec fn view(&self) -> NodeV {
        NodeV { id: self.id@, node_type: self.node_type@, properties: props_view(self.properties@) }
    }
}

impl View for AbstractLinkEndpoint {
    type V = EndpointV;

    open spec fn view(&self) -> EndpointV {
        EndpointV {
            id: self.id@,
            property: match self.property {
                Some(p) => Some(p@),
                None => None,
            },
        }
    }
}

impl View for AbstractLink {
    type V = LinkV;

    open spec fn view(&self) -> LinkV {
        LinkV { from: self.from@, to: self.to@ }
    }
}

impl View for AbstractPipeline {
    type V = PipelineV;

    open spec fn view(&self) -> PipelineV {
        PipelineV { nodes: nodes_view(self.nodes@), links: links_view(self.links@) }
    }
}

// ---------------------------------------------------------------------------
// Specifications

/// Element factories that convert a stream; a split stream leaves them.
pub open spec fn spec_is_linker(t: Seq<char>) -> bool {
    t == "videoconvert"@ || t == "audioconvert"@ || t == "subparse"@
}

pub open spec fn spec_linker_type(t: Seq<char>) -> PipeableStreamType {
    if t == "videoconvert"@ {
        PipeableStreamType::Video
    } else if t == "audioconvert"@ {
        PipeableStreamType::Audio
    } else {
        PipeableStreamType::Subtitles
    }
}

pub open spec fn spec_starts_with(s: Seq<char>, p: Seq<char>) -> bool {
    p.len() <= s.len() && s.subrange(0, p.len() as int) == p
}

pub open spec fn spec_is_encoder(t: Seq<char>) -> bool {
    spec_starts_with(t, "encoder:"@)
}

pub open spec fn spec_is_decoder(t: Seq<char>) -> bool {
    spec_starts_with(t, "decoder:"@)
}

pub open spec fn spec_is_aliased(t: Seq<char>) -> bool {
    spec_is_encoder(t) || spec_is_decoder(t)
}

/// The text between the first and the second `:` of an alias
/// (`encoder:<segment>` or `decoder:<segment>`) is `seg`, which holds no `:`.
pub open spec fn spec_segment_is(t: Seq<char>, seg: Seq<char>) -> bool {
    &&& t.len() >= 8 + seg.len()
    &&& t.subrange(8, 8 + seg.len() as int) == seg
    &&& (t.len() == 8 + seg.len() || t[8 + seg.len() as int] == ':')
}

/// An alias whose stream type is one that can be expanded.
pub open spec fn spec_alias_expandable(t: Seq<char>) -> bool {
    spec_is_aliased(t) && (spec_segment_is(t, "video"@) || spec_segment_is(t, "audio"@))
}

pub open spec fn spec_render_props(ps: Seq<(Seq<char>, Seq<char>)>) -> Seq<char>
    decreases ps.len(),
{
    if ps.len() == 0 {
        Seq::empty()
    } else {
        spec_render_props(ps.drop_last()) + " "@ + ps.last().0 + "="@ + ps.last().1
    }
}

pub open spec fn spec_render_node(n: NodeV) -> Seq<char> {
    n.node_type + " name="@ + n.id + spec_render_props(n.properties)
}

pub open spec fn spec_render_endpoint(e: EndpointV) -> Seq<char> {
    match e.property {
        Some(p) => e.id + "."@ + p,
        None => e.id + "."@,
    }
}

pub open spec fn spec_render_link(l: LinkV) -> Seq<char> {
    spec_render_endpoint(l.from) + " ! "@ + spec_render_endpoint(l.to)
}

pub open spec fn spec_render_links(ls: Seq<LinkV>) -> Seq<char>
    decreases ls.len(),
{
    if ls.len() == 0 {
        Seq::empty()
    } else {
        spec_render_links(ls.drop_last()) + "\n "@ + spec_render_link(ls.last())
    }
}

pub open spec fn spec_render_nodes(ns: Seq<(Seq<char>, NodeV)>) -> Seq<char>
    decreases ns.len(),
{
    if ns.len() == 0 {
        Seq::empty()
    } else {
        spec_render_nodes(ns.drop_last()) + "\n "@ + spec_render_node(ns.last().1)
    }
}

/// The text of a pipeline: one line per link, then one line per element.
pub open spec fn spec_render_pipeline(p: PipelineV) -> Seq<char> {
    spec_render_links(p.links) + spec_render_nodes(p.nodes)
}

/// Adds an element under its own name, replacing an element of that name.
pub open spec fn spec_add_node(ns: Seq<(Seq<char>, NodeV)>, n: NodeV) -> Seq<(Seq<char>, NodeV)> {
    assoc_insert(ns, n.id, n)
}

/// Adds the elements of `os`, in order, each under its own name.
pub open spec fn spec_add_nodes(ns: Seq<(Seq<char>, NodeV)>, os: Seq<(Seq<char>, NodeV)>) -> Seq<(Seq<char>, NodeV)>
    decreases os.len(),
{
    if os.len() == 0 {
        ns
    } else {
        spec_add_node(spec_add_nodes(ns, os.drop_last()), os.last().1)
    }
}

/// `p` with the elements and links of `o` added.
pub open spec fn spec_merge(p: PipelineV, o: PipelineV) -> PipelineV {
    PipelineV { nodes: spec_add_nodes(p.nodes, o.nodes), links: p.links + o.links }
}

pub open spec fn spec_plain_endpoint(id: Seq<char>) -> EndpointV {
    EndpointV { id, property: None }
}

pub open spec fn spec_plain_link(from: Seq<char>, to: Seq<char>) -> LinkV {
    LinkV { from: spec_plain_endpoint(from), to: spec_plain_endpoint(to) }
}

pub open spec fn spec_new_node(t: Seq<char>, id: Seq<char>) -> NodeV {
    NodeV { id, node_type: t, properties: Seq::empty() }
}

/// Each element is held under its own name.
pub open spec fn spec_names_match(ns: Seq<(Seq<char>, NodeV)>) -> bool {
    forall|i: int| 0 <= i < ns.len() ==> (#[trigger] ns[i]).0 == ns[i].1.id
}

/// The invariant of a pipeline's element map: each name once, and each
/// element under its own name.
pub open spec fn spec_wf(p: PipelineV) -> bool {
    keys_unique(p.nodes) && spec_names_match(p.nodes)
}

// ---------------------------------------------------------------------------
// Executable helpers

fn clone_props(ps: &Vec<(String, String)>) -> (r: Vec<(String, String)>)
    ensures
        props_view(r@) == props_view(ps@),
{
    let mut r: Vec<(String, String)> = Vec::new();
    let mut i: usize = 0;
    while i < ps.len()
        invariant
            i <= ps.len(),
            r@ =~= ps@.take(i as int),
        decreases ps.len() - i,
    {
        let k = ps[i].0.clone();
        let v = ps[i].1.clone();
        r.push((k, v));
        i = i + 1;
    }
    assert(ps@.take(ps.len() as int) =~= ps@);
    r
}

impl Clone for AbstractNode {
    fn clone(&self) -> (r: Self)
        ensures
            r@ == self@,
    {
        AbstractNode { id: self.id.clone(), node_type: self.node_type.clone(), properties: clone_props(&self.properties) }
    }
}

impl Clone for AbstractLinkEndpoint {
    fn clone(&self) -> (r: Self)
        ensures
            r@ == self@,
    {
        let property = match &self.property {
            Some(p) => Some(p.clone()),
            None => None,
        };
        AbstractLinkEndpoint { id: self.id.clone(), property }
    }
}

impl Clone for AbstractLink {
    fn clone(&self) -> (r: Self)
        ensures
            r@ == self@,
    {
        AbstractLink { from: self.from.clone(), to: self.to.clone() }
    }
}

/// Whether two optional pad names are equal.
fn opt_str_eq(a: &Option<String>, b: &Option<String>) -> (r: bool)
    ensures
        r == (match (a, b) {
            (Some(x), Some(y)) => x@ == y@,
            (None, None) => true,
            _ => false,
        }),
{
    match (a, b) {
        (Some(x), Some(y)) => str_eq(x.as_str(), y.as_str()),
        (None, None) => true,
        _ => false,
    }
}

impl AbstractLinkEndpoint {
    /// Whether two endpoints name the same element and pad.
    pub fn same(&self, other: &AbstractLinkEndpoint) -> (r: bool)
        ensures
            r == (self@ == other@),
    {
        str_eq(self.id.as_str(), other.id.as_str()) && opt_str_eq(&self.property, &other.property)
    }
}

/// Index of the entry of `nodes` with key `k` (the last one), if any.
fn node_index(nodes: &Vec<(String, AbstractNode)>, k: &str) -> (r: Option<usize>)
    ensures
        match r {
            Some(i) => i as int == key_index(nodes_view(nodes@), k@),
            None => !has_key(nodes_view(nodes@), k@),
        },
{
    let ghost nv = nodes_view(nodes@);
    let mut i = nodes.len();
    while i > 0
        invariant
            i <= nodes.len(),
            nv == nodes_view(nodes@),
            forall|j: int| i <= j < nodes.len() ==> nv[j].0 != k@,
        decreases i,
    {
        i = i - 1;
        if str_eq(nodes[i].0.as_str(), k) {
            proof {
                lemma_key_index(nv, k@);
                if key_index(nv, k@) != i {
                    assert(nv[i as int].0 == k@);
                }
            }
            return Some(i);
        }
    }
    proof {
        lemma_key_index(nv, k@);
        if key_index(nv, k@) >= 0 {
            assert(nv[key_index(nv, k@)].0 == k@);
        }
    }
    None
}

impl AbstractNode {
    /// A new element of the given factory with no properties, named `id`, or
    /// by a fresh UUID when no name is given.
    pub fn new(node_type: &str, id: Option<String>) -> (r: Self)
        ensures
            r@.node_type == node_type@,
            r@.properties == Seq::<(Seq<char>, Seq<char>)>::empty(),
            match id {
                Some(i) => r@.id == i@,
                None => exists|u: u128| r@.id == uuid_hyphenated(u),
            },
    {
        let id = match id {
            Some(id) => id,
            None => uniq_id_string(),
        };
        Self { id, node_type: owned(node_type), properties: Vec::new() }
    }

    /// A new element with the given properties, named as by `new`.
    pub fn new_with_props(node_type: &str, id: Option<String>, properties: Vec<(String, String)>) -> (r: Self)
        ensures
            r@.node_type == node_type@,
            r@.properties == props_view(properties@),
            match id {
                Some(i) => r@.id == i@,
                None => exists|u: u128| r@.id == uuid_hyphenated(u),
            },
    {
        let id = match id {
            Some(id) => id,
            None => uniq_id_string(),
        };
        Self { id, node_type: owned(node_type), properties }
    }

    /// An encoder alias for the given stream type, with a fresh name.
    pub fn new_encoder(stream_type: &PipeableStreamType) -> (r: Self)
        ensures
            r@.node_type == "encoder:"@ + spec_stream_name(*stream_type),
            r@.properties == Seq::<(Seq<char>, Seq<char>)>::empty(),
            exists|u: u128| r@.id == uuid_hyphenated(u),
    {
        let name = stream_type.to_string();
        Self { id: uniq_id_string(), node_type: cat("encoder:", name.as_str()), properties: Vec::new() }
    }

    /// An encoder alias with properties, with a fresh name.
    pub fn new_encoder_with_props(stream_type: &PipeableStreamType, properties: Vec<(String, String)>) -> (r: Self)
        ensures
            r@.node_type == "encoder:"@ + spec_stream_name(*stream_type),
            r@.properties == props_view(properties@),
            exists|u: u128| r@.id == uuid_hyphenated(u),
    {
        let name = stream_type.to_string();
        Self { id: uniq_id_string(), node_type: cat("encoder:", name.as_str()), properties }
    }

    /// A decoder alias for the given stream type, with a fresh name.
    pub fn new_decoder(stream_type: &PipeableStreamType) -> (r: Self)
        ensures
            r@.node_type == "decoder:"@ + spec_stream_name(*stream_type),
            r@.properties == Seq::<(Seq<char>, Seq<char>)>::empty(),
            exists|u: u128| r@.id == uuid_hyphenated(u),
    {
        let name = stream_type.to_string();
        Self { id: uniq_id_string(), node_type: cat("decoder:", name.as_str()), properties: Vec::new() }
    }

    /// A decoder alias with properties, with a fresh name.
    pub fn new_decoder_with_props(stream_type: &PipeableStreamType, properties: Vec<(String, String)>) -> (r: Self)
        ensures
            r@.node_type == "decoder:"@ + spec_stream_name(*stream_type),
            r@.properties == props_view(properties@),
            exists|u: u128| r@.id == uuid_hyphenated(u),
    {
        let name = stream_type.to_string();
        Self { id: uniq_id_string(), node_type: cat("decoder:", name.as_str()), properties }
    }

    /// The element as GStreamer pipeline text: `<factory> name=<name>` and
    /// ` <property>=<value>` for each property.
    pub fn to_gstreamer_pipeline(&self) -> (r: String)
        ensures
            r@ == spec_render_node(self@),
    {
        let mut s = cat(self.node_type.as_str(), " name=");
        s.append(self.id.as_str());
        let mut i: usize = 0;
        while i < self.properties.len()
            invariant
                i <= self.properties.len(),
                s@ == self.node_type@ + " name="@ + self.id@ + spec_render_props(props_view(self.properties@).take(i as int)),
            decreases self.properties.len() - i,
        {
            proof {
                assert(props_view(self.properties@).take(i + 1).drop_last() =~= props_view(self.properties@).take(i as int));
            }
            s.append(" ");
            s.append(self.properties[i].0.as_str());
            s.append("=");
            s.append(self.properties[i].1.as_str());
            i = i + 1;
        }
        assert(props_view(self.properties@).take(self.properties.len() as int) =~= props_view(self.properties@));
        s
    }

    /// Whether the element converts a stream (`videoconvert`, `audioconvert`
    /// or `subparse`).
    pub fn is_linker(&self) -> (r: bool)
        ensures
            r == spec_is_linker(self.node_type@),
    {
        str_eq(self.node_type.as_str(), "videoconvert") || str_eq(self.node_type.as_str(), "audioconvert")
            || str_eq(self.node_type.as_str(), "subparse")
    }

    /// The stream type that a converting element handles.
    pub fn linker_to_type(&self) -> (r: PipeableStreamType)
        requires
            spec_is_linker(self.node_type@),
        ensures
            r == spec_linker_type(self.node_type@),
    {
        if str_eq(self.node_type.as_str(), "videoconvert") {
            PipeableStreamType::Video
        } else if str_eq(self.node_type.as_str(), "audioconvert") {
            PipeableStreamType::Audio
        } else {
            PipeableStreamType::Subtitles
        }
    }

    /// Whether the element is an encoder or decoder alias.
    pub fn is_aliased(&self) -> (r: bool)
        ensures
            r == spec_is_aliased(self.node_type@),
    {
        self.is_encoder() || self.is_decoder()
    }

    fn is_decoder(&self) -> (r: bool)
        ensures
            r == spec_is_decoder(self.node_type@),
    {
        starts_with(self.node_type.as_str(), "decoder:")
    }

    fn is_encoder(&self) -> (r: bool)
        ensures
            r == spec_is_encoder(self.node_type@),
    {
        starts_with(self.node_type.as_str(), "encoder:")
    }
}

impl AbstractLinkEndpoint {
    /// The whole element, no particular pad.
    pub fn new(id: String) -> (r: Self)
        ensures
            r@ == spec_plain_endpoint(id@),
    {
        Self { id, property: None }
    }

    /// A given pad of an element.
    pub fn new_with_property(id: String, property: String) -> (r: Self)
        ensures
            r@ == (EndpointV { id: id@, property: Some(property@) }),
    {
        Self { id, property: Some(property) }
    }
}

fn render_endpoint(e: &AbstractLinkEndpoint) -> (r: String)
    ensures
        r@ == spec_render_endpoint(e@),
{
    match &e.property {
        Some(p) => {
            let mut s = cat(e.id.as_str(), ".");
            s.append(p.as_str());
            s
        },
        None => cat(e.id.as_str(), "."),
    }
}

impl AbstractLink {
    /// The link as GStreamer pipeline text: `<from> ! <to>`, each end written
    /// `<name>.<pad>`, or `<name>.` when no pad is given.
    pub fn to_gstreamer_pipeline(&self) -> (r: String)
        ensures
            r@ == spec_render_link(self@),
    {
        let from = render_endpoint(&self.from);
        let to = render_endpoint(&self.to);
        let mut s = cat(from.as_str(), " ! ");
        s.append(to.as_str());
        s
    }
}

impl AbstractPipeline {
    /// The empty pipeline.
    pub fn new() -> (r: Self)
        ensures
            r@.nodes.len() == 0,
            r@.links.len() == 0,
    {
        Self { nodes: Vec::new(), links: Vec::new() }
    }

    /// Adds an element under its own name, replacing an element of that name.
    pub fn add_node(&mut self, node: AbstractNode)
        ensures
            final(self)@.nodes == spec_add_node(old(self)@.nodes, node@),
            final(self)@.links == old(self)@.links,
    {
        let key = node.id.clone();
        let ghost nv = self@.nodes;
        proof {
            lemma_key_index(nv, node@.id);
        }
        match node_index(&self.nodes, key.as_str()) {
            Some(i) => {
                self.nodes.set(i, (key, node));
                assert(self@.nodes =~= nv.update(i as int, (node@.id, node@)));
            },
            None => {
                self.nodes.push((key, node));
                assert(self@.nodes =~= nv.push((node@.id, node@)));
            },
        }
    }

    /// Links two whole elements.
    pub fn link(&mut self, from: &AbstractNode, to: &AbstractNode)
        ensures
            final(self)@.nodes == old(self)@.nodes,
            final(self)@.links == old(self)@.links.push(spec_plain_link(from@.id, to@.id)),
    {
        let l = AbstractLink {
            from: AbstractLinkEndpoint::new(from.id.clone()),
            to: AbstractLinkEndpoint::new(to.id.clone()),
        };
        self.link_abstract(l);
    }

    /// Adds a link.
    pub fn link_abstract(&mut self, link: AbstractLink)
        ensures
            final(self)@.nodes == old(self)@.nodes,
            final(self)@.links == old(self)@.links.push(link@),
    {
        let ghost lv = self@.links;
        self.links.push(link);
        assert(self@.links =~= lv.push(link@));
    }

    /// Adds the elements and links of another pipeline: its elements, in
    /// order, each under its own name, and its links after the present ones.
    pub fn merge(&mut self, other: AbstractPipeline)
        ensures
            final(self)@ == spec_merge(old(self)@, other@),
    {
        let ghost start = self@;
        let mut i: usize = 0;
        while i < other.nodes.len()
            invariant
                i <= other.nodes.len(),
                self@.nodes == spec_add_nodes(start.nodes, other@.nodes.take(i as int)),
                self@.links == start.links,
            decreases other.nodes.len() - i,
        {
            proof {
                assert(other@.nodes.take(i + 1).drop_last() =~= other@.nodes.take(i as int));
            }
            let n = other.nodes[i].1.clone();
            self.add_node(n);
            i = i + 1;
        }
        assert(other@.nodes.take(other.nodes.len() as int) =~= other@.nodes);
        let mut j: usize = 0;
        while j < other.links.len()
            invariant
                j <= other.links.len(),
                self@.nodes == spec_add_nodes(start.nodes, other@.nodes),
                self@.links =~= start.links + other@.links.take(j as int),
            decreases other.links.len() - j,
        {
            let l = other.links[j].clone();
            self.link_abstract(l);
            j = j + 1;
        }
        assert(other@.links.take(other.links.len() as int) =~= other@.links);
    }
}


// ---------------------------------------------------------------------------
// Removing dead ends

/// Sinks end a pipeline: they are never dead ends.
pub open spec fn spec_is_sink(t: Seq<char>) -> bool {
    t == "splitmuxsink"@ || t == "filesink"@
}

pub open spec fn spec_has_link_from(ls: Seq<LinkV>, id: Seq<char>) -> bool {
    exists|i: int| 0 <= i < ls.len() && (#[trigger] ls[i]).from.id == id
}

/// The links that do not end at element `id`, in order.
pub open spec fn spec_links_not_to(ls: Seq<LinkV>, id: Seq<char>) -> Seq<LinkV>
    decreases ls.len(),
{
    if ls.len() == 0 {
        Seq::empty()
    } else {
        let r = spec_links_not_to(ls.drop_last(), id);
        if ls.last().to.id == id { r } else { r.push(ls.last()) }
    }
}

/// The names of the elements that links into element `id` start from, in order.
pub open spec fn spec_incoming(ls: Seq<LinkV>, id: Seq<char>) -> Seq<Seq<char>>
    decreases ls.len(),
{
    if ls.len() == 0 {
        Seq::empty()
    } else {
        let r = spec_incoming(ls.drop_last(), id);
        if ls.last().to.id == id { r.push(ls.last().from.id) } else { r }
    }
}

/// Element `id` is a dead end: it exists, is not a sink, and no link leaves it.
pub open spec fn spec_is_dead_end(p: PipelineV, id: Seq<char>) -> bool {
    has_key(p.nodes, id) && !spec_is_sink(assoc_get(p.nodes, id).node_type) && !spec_has_link_from(p.links, id)
}

/// An entry of the element map that is not a dead end.
pub open spec fn spec_entry_ok(p: PipelineV, e: (Seq<char>, NodeV)) -> bool {
    spec_is_sink(e.1.node_type) || spec_has_link_from(p.links, e.0)
}

/// No element of the pipeline is a dead end.
pub open spec fn spec_no_dead_ends(p: PipelineV) -> bool {
    forall|j: int| 0 <= j < p.nodes.len() ==> spec_entry_ok(p, #[trigger] p.nodes[j])
}

pub proof fn lemma_links_not_to(ls: Seq<LinkV>, id: Seq<char>)
    ensures
        forall|i: int| 0 <= i < spec_links_not_to(ls, id).len() ==> ls.contains(#[trigger] spec_links_not_to(ls, id)[i]),
        forall|i: int| 0 <= i < spec_links_not_to(ls, id).len() ==> (#[trigger] spec_links_not_to(ls, id)[i]).to.id != id,
        forall|i: int| 0 <= i < ls.len() && (#[trigger] ls[i]).to.id != id ==> spec_links_not_to(ls, id).contains(ls[i]),
        forall|i: int| 0 <= i < ls.len() && (#[trigger] ls[i]).to.id == id ==> spec_incoming(ls, id).contains(ls[i].from.id),
    decreases ls.len(),
{
    if ls.len() > 0 {
        let d = ls.drop_last();
        lemma_links_not_to(d, id);
        let r = spec_links_not_to(ls, id);
        let rd = spec_links_not_to(d, id);
        assert forall|i: int| 0 <= i < r.len() implies ls.contains(#[trigger] r[i]) && r[i].to.id != id by {
            if i < rd.len() {
                assert(rd[i] == r[i]);
                assert(d.contains(rd[i]));
                let k = choose|k: int| 0 <= k < d.len() && d[k] == rd[i];
                assert(ls[k] == d[k]);
            } else {
                assert(r[i] == ls.last());
                assert(ls[ls.len() - 1] == ls.last());
            }
        }
        assert forall|i: int| 0 <= i < ls.len() && (#[trigger] ls[i]).to.id != id implies r.contains(ls[i]) by {
            if i < ls.len() - 1 {
                assert(d[i] == ls[i]);
                assert(rd.contains(d[i]));
                let k = choose|k: int| 0 <= k < rd.len() && rd[k] == d[i];
                assert(r[k] == rd[k]);
            } else {
                assert(r[r.len() - 1] == ls[i]);
            }
        }
        let inc = spec_incoming(ls, id);
        let incd = spec_incoming(d, id);
        assert forall|i: int| 0 <= i < ls.len() && (#[trigger] ls[i]).to.id == id implies inc.contains(ls[i].from.id) by {
            if i < ls.len() - 1 {
                assert(d[i] == ls[i]);
                assert(incd.contains(d[i].from.id));
                let k = choose|k: int| 0 <= k < incd.len() && incd[k] == d[i].from.id;
                assert(inc[k] == incd[k]);
            } else {
                assert(inc[inc.len() - 1] == ls[i].from.id);
            }
        }
    }
}

/// Element `id` is taken away in the next round of dead-end removal, after
/// the elements `prev`: it is not a sink and every link leaving it goes to an
/// element of `prev`.
pub open spec fn spec_doomed_step(p: PipelineV, prev: Set<Seq<char>>, id: Seq<char>) -> bool {
    &&& has_key(p.nodes, id)
    &&& !spec_is_sink(assoc_get(p.nodes, id).node_type)
    &&& forall|j: int| 0 <= j < p.links.len() && (#[trigger] p.links[j]).from.id == id ==> prev.contains(p.links[j].to.id)
}

/// The elements that `k` rounds of dead-end removal take away.
pub open spec fn spec_doomed_by(p: PipelineV, k: nat) -> Set<Seq<char>>
    decreases k,
{
    if k == 0 {
        Set::empty()
    } else {
        let prev = spec_doomed_by(p, (k - 1) as nat);
        prev.union(Set::new(|id: Seq<char>| spec_doomed_step(p, prev, id)))
    }
}

/// The elements that dead-end removal takes away: those taken away within
/// some number of rounds. These are the elements from which every path of
/// links runs into a dead end.
pub open spec fn spec_doomed_set(p: PipelineV) -> Set<Seq<char>> {
    Set::new(|id: Seq<char>| exists|k: nat| #[trigger] spec_doomed_by(p, k).contains(id))
}

/// The elements not named in `gone`, in order.
pub open spec fn spec_nodes_without(ns: Seq<(Seq<char>, NodeV)>, gone: Set<Seq<char>>) -> Seq<(Seq<char>, NodeV)>
    decreases ns.len(),
{
    if ns.len() == 0 {
        ns
    } else if gone.contains(ns.last().0) {
        spec_nodes_without(ns.drop_last(), gone)
    } else {
        spec_nodes_without(ns.drop_last(), gone).push(ns.last())
    }
}

/// The links that do not go into an element named in `gone`, in order.
pub open spec fn spec_links_without(ls: Seq<LinkV>, gone: Set<Seq<char>>) -> Seq<LinkV>
    decreases ls.len(),
{
    if ls.len() == 0 {
        ls
    } else if gone.contains(ls.last().to.id) {
        spec_links_without(ls.drop_last(), gone)
    } else {
        spec_links_without(ls.drop_last(), gone).push(ls.last())
    }
}

/// The pipeline with its dead ends removed, round after round, with the
/// links into them: what stays is every element from which some path of
/// links reaches a sink, a cycle or a name that is no element.
pub open spec fn spec_prune(p: PipelineV) -> PipelineV {
    PipelineV {
        nodes: spec_nodes_without(p.nodes, spec_doomed_set(p)),
        links: spec_links_without(p.links, spec_doomed_set(p)),
    }
}

proof fn lemma_doomed_mono(p: PipelineV, k: nat, m: nat)
    requires
        k <= m,
    ensures
        spec_doomed_by(p, k).subset_of(spec_doomed_by(p, m)),
    decreases m - k,
{
    if k < m {
        lemma_doomed_mono(p, k, (m - 1) as nat);
    }
}

/// Every link of `ls` that leaves `x` goes to an element of `s`.
pub open spec fn spec_targets_in(ls: Seq<LinkV>, x: Seq<char>, s: Set<Seq<char>>) -> bool {
    forall|j: int| 0 <= j < ls.len() && (#[trigger] ls[j]).from.id == x ==> s.contains(ls[j].to.id)
}

/// Finitely many doomed targets are all doomed within one number of rounds.
proof fn lemma_doomed_bound(p: PipelineV, ls: Seq<LinkV>, x: Seq<char>)
    requires
        spec_targets_in(ls, x, spec_doomed_set(p)),
    ensures
        exists|k: nat| spec_targets_in(ls, x, #[trigger] spec_doomed_by(p, k)),
    decreases ls.len(),
{
    if ls.len() == 0 {
        assert(spec_targets_in(ls, x, spec_doomed_by(p, 0)));
    } else {
        let d = ls.drop_last();
        assert forall|j: int| 0 <= j < d.len() && (#[trigger] d[j]).from.id == x implies spec_doomed_set(p).contains(d[j].to.id) by {
            assert(d[j] == ls[j]);
        }
        lemma_doomed_bound(p, d, x);
        let k0 = choose|k: nat| spec_targets_in(d, x, #[trigger] spec_doomed_by(p, k));
        let l = ls.last();
        assert(ls[ls.len() - 1] == l);
        let k1: nat = if l.from.id == x {
            choose|k: nat| #[trigger] spec_doomed_by(p, k).contains(l.to.id)
        } else {
            0
        };
        let km: nat = if k0 >= k1 { k0 } else { k1 };
        lemma_doomed_mono(p, k0, km);
        lemma_doomed_mono(p, k1, km);
        assert forall|j: int| 0 <= j < ls.len() && (#[trigger] ls[j]).from.id == x implies spec_doomed_by(p, km).contains(ls[j].to.id) by {
            if j < ls.len() - 1 {
                assert(ls[j] == d[j]);
            }
        }
        assert(spec_targets_in(ls, x, spec_doomed_by(p, km)));
    }
}

/// An entry stays exactly when it was there and is not named in `gone`.
proof fn lemma_nodes_without(ns: Seq<(Seq<char>, NodeV)>, gone: Set<Seq<char>>)
    ensures
        forall|e: (Seq<char>, NodeV)| #[trigger] spec_nodes_without(ns, gone).contains(e) <==> ns.contains(e) && !gone.contains(e.0),
        keys_unique(ns) ==> keys_unique(spec_nodes_without(ns, gone)),
    decreases ns.len(),
{
    if ns.len() > 0 {
        let d = ns.drop_last();
        let last = ns.last();
        assert(ns[ns.len() - 1] == last);
        lemma_nodes_without(d, gone);
        let r = spec_nodes_without(ns, gone);
        let rd = spec_nodes_without(d, gone);
        if gone.contains(last.0) {
            assert(r == rd);
        } else {
            assert(r == rd.push(last));
        }
        assert forall|e: (Seq<char>, NodeV)| #[trigger] r.contains(e) <==> ns.contains(e) && !gone.contains(e.0) by {
            if ns.contains(e) && !gone.contains(e.0) {
                let i = choose|i: int| 0 <= i < ns.len() && ns[i] == e;
                if i < ns.len() - 1 {
                    assert(d[i] == e);
                    assert(d.contains(e));
                    assert(rd.contains(e));
                    let q = choose|q: int| 0 <= q < rd.len() && rd[q] == e;
                    assert(r[q] == e);
                } else {
                    assert(r[r.len() - 1] == e);
                }
                assert(r.contains(e));
            }
            if r.contains(e) {
                let q = choose|q: int| 0 <= q < r.len() && r[q] == e;
                if q < rd.len() {
                    assert(rd[q] == e);
                    assert(rd.contains(e));
                    assert(d.contains(e));
                    let i = choose|i: int| 0 <= i < d.len() && d[i] == e;
                    assert(ns[i] == e);
                } else {
                    assert(e == last);
                    assert(ns[ns.len() - 1] == e);
                }
                assert(ns.contains(e));
            }
        }
        if keys_unique(ns) {
            assert(keys_unique(d)) by {
                assert forall|i: int, j: int| 0 <= i < d.len() && 0 <= j < d.len() && i != j implies d[i].0 != d[j].0 by {
                    assert(d[i] == ns[i] && d[j] == ns[j]);
                }
            }
            if !gone.contains(last.0) {
                assert forall|i: int, j: int| 0 <= i < r.len() && 0 <= j < r.len() && i != j implies r[i].0 != r[j].0 by {
                    if i < rd.len() && j < rd.len() {
                        assert(r[i] == rd[i] && r[j] == rd[j]);
                    } else {
                        let (a, b) = if i < rd.len() { (i, j) } else { (j, i) };
                        assert(r[a] == rd[a]);
                        assert(rd.contains(rd[a]));
                        assert(d.contains(rd[a]));
                        let m = choose|m: int| 0 <= m < d.len() && d[m] == rd[a];
                        assert(ns[m] == d[m]);
                        assert(r[b] == last);
                    }
                }
            }
        }
    }
}

/// A link stays exactly when it was there and does not go into an element
/// named in `gone`.
proof fn lemma_links_without(ls: Seq<LinkV>, gone: Set<Seq<char>>)
    ensures
        forall|l: LinkV| #[trigger] spec_links_without(ls, gone).contains(l) <==> ls.contains(l) && !gone.contains(l.to.id),
    decreases ls.len(),
{
    if ls.len() > 0 {
        let d = ls.drop_last();
        let last = ls.last();
        assert(ls[ls.len() - 1] == last);
        lemma_links_without(d, gone);
        let r = spec_links_without(ls, gone);
        let rd = spec_links_without(d, gone);
        if gone.contains(last.to.id) {
            assert(r == rd);
        } else {
            assert(r == rd.push(last));
        }
        assert forall|l: LinkV| #[trigger] r.contains(l) <==> ls.contains(l) && !gone.contains(l.to.id) by {
            if ls.contains(l) && !gone.contains(l.to.id) {
                let i = choose|i: int| 0 <= i < ls.len() && ls[i] == l;
                if i < ls.len() - 1 {
                    assert(d[i] == l);
                    assert(d.contains(l));
                    assert(rd.contains(l));
                    let q = choose|q: int| 0 <= q < rd.len() && rd[q] == l;
                    assert(r[q] == l);
                } else {
                    assert(r[r.len() - 1] == l);
                }
                assert(r.contains(l));
            }
            if r.contains(l) {
                let q = choose|q: int| 0 <= q < r.len() && r[q] == l;
                if q < rd.len() {
                    assert(rd[q] == l);
                    assert(rd.contains(l));
                    assert(d.contains(l));
                    let i = choose|i: int| 0 <= i < d.len() && d[i] == l;
                    assert(ls[i] == l);
                } else {
                    assert(ls[ls.len() - 1] == l);
                }
                assert(ls.contains(l));
            }
        }
    }
}

proof fn lemma_nodes_without_empty(ns: Seq<(Seq<char>, NodeV)>)
    ensures
        spec_nodes_without(ns, Set::empty()) == ns,
    decreases ns.len(),
{
    if ns.len() > 0 {
        lemma_nodes_without_empty(ns.drop_last());
        assert(ns.drop_last().push(ns.last()) =~= ns);
    }
}

proof fn lemma_links_without_empty(ls: Seq<LinkV>)
    ensures
        spec_links_without(ls, Set::empty()) == ls,
    decreases ls.len(),
{
    if ls.len() > 0 {
        lemma_links_without_empty(ls.drop_last());
        assert(ls.drop_last().push(ls.last()) =~= ls);
    }
}

/// Without `x`, among elements whose names are each used once, is without one
/// name more.
proof fn lemma_nodes_without_insert_absent(ns: Seq<(Seq<char>, NodeV)>, gone: Set<Seq<char>>, x: Seq<char>)
    requires
        forall|i: int| 0 <= i < ns.len() ==> (#[trigger] ns[i]).0 != x,
    ensures
        spec_nodes_without(ns, gone.insert(x)) == spec_nodes_without(ns, gone),
    decreases ns.len(),
{
    if ns.len() > 0 {
        assert(ns[ns.len() - 1] == ns.last());
        assert forall|i: int| 0 <= i < ns.drop_last().len() implies (#[trigger] ns.drop_last()[i]).0 != x by {
            assert(ns.drop_last()[i] == ns[i]);
        }
        lemma_nodes_without_insert_absent(ns.drop_last(), gone, x);
    }
}

/// Removing one more element from a pruned map.
proof fn lemma_nodes_without_remove(ns: Seq<(Seq<char>, NodeV)>, gone: Set<Seq<char>>, x: Seq<char>)
    requires
        keys_unique(ns),
    ensures
        assoc_remove(spec_nodes_without(ns, gone), x) == spec_nodes_without(ns, gone.insert(x)),
    decreases ns.len(),
{
    if ns.len() > 0 {
        let d = ns.drop_last();
        let e = ns.last();
        assert(ns[ns.len() - 1] == e);
        assert(keys_unique(d)) by {
            assert forall|i: int, j: int| 0 <= i < d.len() && 0 <= j < d.len() && i != j implies d[i].0 != d[j].0 by {
                assert(d[i] == ns[i] && d[j] == ns[j]);
            }
        }
        lemma_nodes_without(d, gone);
        let f = spec_nodes_without(ns, gone);
        let fd = spec_nodes_without(d, gone);
        lemma_key_index(fd, x);
        if e.0 == x {
            assert forall|i: int| 0 <= i < d.len() implies (#[trigger] d[i]).0 != x by {
                assert(d[i] == ns[i]);
            }
            lemma_nodes_without_insert_absent(d, gone, x);
            assert(key_index(fd, x) < 0) by {
                if key_index(fd, x) >= 0 {
                    let q = key_index(fd, x);
                    assert(fd.contains(fd[q]));
                    let i = choose|i: int| 0 <= i < d.len() && d[i] == fd[q];
                }
            }
            if gone.contains(x) {
                assert(f == fd);
            } else {
                assert(f == fd.push(e));
                assert(key_index(f, x) == fd.len());
                assert(f.remove(fd.len() as int) =~= fd);
            }
        } else {
            lemma_nodes_without_remove(d, gone, x);
            if !gone.contains(e.0) {
                assert(f == fd.push(e));
                assert(f.drop_last() =~= fd);
                assert(key_index(f, x) == key_index(fd, x));
                if key_index(fd, x) >= 0 {
                    assert(f.remove(key_index(fd, x)) =~= fd.remove(key_index(fd, x)).push(e));
                }
            }
        }
    }
}

/// Dropping the links into one more element.
proof fn lemma_links_without_step(ls: Seq<LinkV>, gone: Set<Seq<char>>, x: Seq<char>)
    ensures
        spec_links_not_to(spec_links_without(ls, gone), x) == spec_links_without(ls, gone.insert(x)),
    decreases ls.len(),
{
    if ls.len() > 0 {
        lemma_links_without_step(ls.drop_last(), gone, x);
        let r = spec_links_without(ls.drop_last(), gone);
        if !gone.contains(ls.last().to.id) {
            assert(r.push(ls.last()).drop_last() =~= r);
        }
    }
}

/// When nothing left is a dead end, everything doomed has been removed.
proof fn lemma_doomed_removed(start: PipelineV, removed: Set<Seq<char>>, k: nat)
    requires
        keys_unique(start.nodes),
        spec_no_dead_ends(spec_without(start, removed)),
    ensures
        spec_doomed_by(start, k).subset_of(removed),
    decreases k,
{
    if k > 0 {
        let prev = spec_doomed_by(start, (k - 1) as nat);
        lemma_doomed_removed(start, removed, (k - 1) as nat);
        let cur = spec_without(start, removed);
        lemma_nodes_without(start.nodes, removed);
        lemma_links_without(start.links, removed);
        assert forall|id: Seq<char>| spec_doomed_by(start, k).contains(id) implies removed.contains(id) by {
            if !prev.contains(id) && !removed.contains(id) {
                assert(spec_doomed_step(start, prev, id));
                lemma_key_index(start.nodes, id);
                let e = start.nodes[key_index(start.nodes, id)];
                assert(start.nodes.contains(e));
                assert(cur.nodes.contains(e));
                let q = choose|q: int| 0 <= q < cur.nodes.len() && cur.nodes[q] == e;
                assert(spec_entry_ok(cur, cur.nodes[q]));
                assert(!spec_is_sink(e.1.node_type));
                let j = choose|j: int| 0 <= j < cur.links.len() && (#[trigger] cur.links[j]).from.id == id;
                assert(cur.links.contains(cur.links[j]));
                let m = choose|m: int| 0 <= m < start.links.len() && start.links[m] == cur.links[j];
                assert(prev.contains(start.links[m].to.id));
            }
        }
    }
}

/// The pipeline `start` with the elements of `gone`, and the links into them, taken away.
pub open spec fn spec_without(start: PipelineV, gone: Set<Seq<char>>) -> PipelineV {
    PipelineV { nodes: spec_nodes_without(start.nodes, gone), links: spec_links_without(start.links, gone) }
}

/// A dead end left after taking away doomed elements is doomed itself.
proof fn lemma_dead_end_doomed(start: PipelineV, removed: Set<Seq<char>>, x: Seq<char>)
    requires
        keys_unique(start.nodes),
        removed.subset_of(spec_doomed_set(start)),
        spec_is_dead_end(spec_without(start, removed), x),
    ensures
        spec_doomed_set(start).contains(x),
{
    let cur = spec_without(start, removed);
    lemma_nodes_without(start.nodes, removed);
    lemma_links_without(start.links, removed);
    assert forall|j: int| 0 <= j < start.links.len() && (#[trigger] start.links[j]).from.id == x
        implies spec_doomed_set(start).contains(start.links[j].to.id) by {
        let l = start.links[j];
        assert(start.links.contains(l));
        if !removed.contains(l.to.id) {
            assert(cur.links.contains(l));
            let q = choose|q: int| 0 <= q < cur.links.len() && cur.links[q] == l;
            assert(cur.links[q].from.id == x);
        }
    }
    assert(spec_targets_in(start.links, x, spec_doomed_set(start)));
    lemma_doomed_bound(start, start.links, x);
    let k = choose|k: nat| spec_targets_in(start.links, x, #[trigger] spec_doomed_by(start, k));
    lemma_key_index(cur.nodes, x);
    let e = cur.nodes[key_index(cur.nodes, x)];
    assert(cur.nodes.contains(e));
    assert(start.nodes.contains(e));
    let i = choose|i: int| 0 <= i < start.nodes.len() && start.nodes[i] == e;
    crate::assoc::lemma_key_index_unique(start.nodes, x, i);
    assert(spec_doomed_step(start, spec_doomed_by(start, k), x));
    assert(spec_doomed_by(start, k + 1).contains(x));
}

/// Removing the dead ends keeps exactly the elements and the links of the
/// pipeline that are not doomed, and the links into them.
pub proof fn law_prune_contents(p: PipelineV)
    ensures
        forall|e: (Seq<char>, NodeV)| #[trigger] spec_prune(p).nodes.contains(e)
            <==> p.nodes.contains(e) && !spec_doomed_set(p).contains(e.0),
        forall|l: LinkV| #[trigger] spec_prune(p).links.contains(l)
            <==> p.links.contains(l) && !spec_doomed_set(p).contains(l.to.id),
{
    lemma_nodes_without(p.nodes, spec_doomed_set(p));
    lemma_links_without(p.links, spec_doomed_set(p));
}

/// A sink element is never taken away by any round of dead-end removal.
proof fn lemma_sink_not_doomed(p: PipelineV, id: Seq<char>, k: nat)
    requires
        has_key(p.nodes, id),
        spec_is_sink(assoc_get(p.nodes, id).node_type),
    ensures
        !spec_doomed_by(p, k).contains(id),
    decreases k,
{
    if k > 0 {
        lemma_sink_not_doomed(p, id, (k - 1) as nat);
    }
}

/// `filesink` and `splitmuxsink` elements end a pipeline: such an element is
/// never a dead end (so `check_and_remove_dangling_node` leaves the pipeline
/// as it is and returns nothing), and removing the dead ends keeps it.
pub proof fn law_sinks_are_kept(p: PipelineV, id: Seq<char>)
    requires
        has_key(p.nodes, id),
        assoc_get(p.nodes, id).node_type == "splitmuxsink"@ || assoc_get(p.nodes, id).node_type == "filesink"@,
    ensures
        !spec_is_dead_end(p, id),
        !spec_doomed_set(p).contains(id),
        spec_prune(p).nodes.contains((id, assoc_get(p.nodes, id))),
{
    assert forall|k: nat| !#[trigger] spec_doomed_by(p, k).contains(id) by {
        lemma_sink_not_doomed(p, id, k);
    }
    law_prune_contents(p);
    lemma_key_index(p.nodes, id);
    assert(p.nodes[key_index(p.nodes, id)] == (id, assoc_get(p.nodes, id)));
    assert(p.nodes.contains((id, assoc_get(p.nodes, id))));
}

/// Every link leaving a doomed element within `k` rounds goes to an element
/// doomed within `k` rounds.
proof fn lemma_doomed_targets(p: PipelineV, k: nat, j: int)
    requires
        0 <= j < p.links.len(),
        spec_doomed_by(p, k).contains(p.links[j].from.id),
    ensures
        spec_doomed_by(p, k).contains(p.links[j].to.id),
    decreases k,
{
    if k > 0 {
        let prev = spec_doomed_by(p, (k - 1) as nat);
        lemma_doomed_mono(p, (k - 1) as nat, k);
        if prev.contains(p.links[j].from.id) {
            lemma_doomed_targets(p, (k - 1) as nat, j);
        } else {
            assert(spec_doomed_step(p, prev, p.links[j].from.id));
        }
    }
}

/// An element with a link to an element that stays stays too.
pub proof fn law_prune_keeps_sources_of_kept(p: PipelineV, j: int)
    requires
        0 <= j < p.links.len(),
        !spec_doomed_set(p).contains(p.links[j].to.id),
    ensures
        !spec_doomed_set(p).contains(p.links[j].from.id),
{
    if spec_doomed_set(p).contains(p.links[j].from.id) {
        let k = choose|k: nat| #[trigger] spec_doomed_by(p, k).contains(p.links[j].from.id);
        lemma_doomed_targets(p, k, j);
    }
}

/// Elements that each have a link to one of themselves (the elements of a
/// cycle, for one) all stay.
pub proof fn law_prune_keeps_cycles(p: PipelineV, s: Set<Seq<char>>)
    requires
        forall|x: Seq<char>| #[trigger] s.contains(x) ==>
            exists|j: int| 0 <= j < p.links.len() && (#[trigger] p.links[j]).from.id == x && s.contains(p.links[j].to.id),
    ensures
        forall|x: Seq<char>| #[trigger] s.contains(x) ==> !spec_doomed_set(p).contains(x),
{
    assert forall|x: Seq<char>| #[trigger] s.contains(x) implies !spec_doomed_set(p).contains(x) by {
        if spec_doomed_set(p).contains(x) {
            let k = choose|k: nat| #[trigger] spec_doomed_by(p, k).contains(x);
            lemma_cycle_not_doomed(p, s, k);
        }
    }
}

proof fn lemma_cycle_not_doomed(p: PipelineV, s: Set<Seq<char>>, k: nat)
    requires
        forall|x: Seq<char>| #[trigger] s.contains(x) ==>
            exists|j: int| 0 <= j < p.links.len() && (#[trigger] p.links[j]).from.id == x && s.contains(p.links[j].to.id),
    ensures
        forall|x: Seq<char>| #[trigger] s.contains(x) ==> !spec_doomed_by(p, k).contains(x),
    decreases k,
{
    if k > 0 {
        let prev = spec_doomed_by(p, (k - 1) as nat);
        lemma_cycle_not_doomed(p, s, (k - 1) as nat);
        assert forall|x: Seq<char>| #[trigger] s.contains(x) implies !spec_doomed_by(p, k).contains(x) by {
            if spec_doomed_by(p, k).contains(x) {
                assert(!prev.contains(x));
                assert(spec_doomed_step(p, prev, x));
                let j = choose|j: int| 0 <= j < p.links.len() && (#[trigger] p.links[j]).from.id == x && s.contains(p.links[j].to.id);
                assert(prev.contains(p.links[j].to.id));
            }
        }
    }
}

/// Removing the dead ends leaves none: every element left is a sink or has
/// a link leaving it.
pub proof fn law_prune_leaves_no_dead_end(p: PipelineV)
    requires
        keys_unique(p.nodes),
    ensures
        spec_no_dead_ends(spec_prune(p)),
{
    let d = spec_doomed_set(p);
    let q = spec_prune(p);
    assert(q == spec_without(p, d));
    lemma_nodes_without(p.nodes, d);
    lemma_links_without(p.links, d);
    assert forall|j: int| 0 <= j < q.nodes.len() implies spec_entry_ok(q, #[trigger] q.nodes[j]) by {
        let e = q.nodes[j];
        assert(q.nodes.contains(e));
        if !spec_entry_ok(q, e) {
            crate::assoc::lemma_key_index_unique(q.nodes, e.0, j);
            assert(spec_is_dead_end(q, e.0));
            lemma_dead_end_doomed(p, d, e.0);
        }
    }
}

/// Removing the dead ends of a pipeline whose dead ends were removed
/// changes nothing.
pub proof fn law_prune_idempotent(p: PipelineV)
    requires
        keys_unique(p.nodes),
    ensures
        spec_prune(spec_prune(p)) == spec_prune(p),
{
    let q = spec_prune(p);
    law_prune_leaves_no_dead_end(p);
    lemma_nodes_without(p.nodes, spec_doomed_set(p));
    assert forall|k: nat| #[trigger] spec_doomed_by(q, k) =~= Set::<Seq<char>>::empty() by {
        lemma_nothing_doomed(q, k);
    }
    assert(spec_doomed_set(q) =~= Set::<Seq<char>>::empty()) by {
        assert forall|id: Seq<char>| !spec_doomed_set(q).contains(id) by {
            if spec_doomed_set(q).contains(id) {
                let k = choose|k: nat| #[trigger] spec_doomed_by(q, k).contains(id);
                lemma_nothing_doomed(q, k);
            }
        }
    }
    lemma_nodes_without_empty(q.nodes);
    lemma_links_without_empty(q.links);
}

/// In a pipeline without dead ends, no element is doomed.
proof fn lemma_nothing_doomed(q: PipelineV, k: nat)
    requires
        spec_no_dead_ends(q),
    ensures
        spec_doomed_by(q, k) =~= Set::<Seq<char>>::empty(),
    decreases k,
{
    if k > 0 {
        lemma_nothing_doomed(q, (k - 1) as nat);
        let prev = spec_doomed_by(q, (k - 1) as nat);
        assert forall|id: Seq<char>| !spec_doomed_by(q, k).contains(id) by {
            if spec_doomed_step(q, prev, id) {
                lemma_key_index(q.nodes, id);
                let j = key_index(q.nodes, id);
                assert(spec_entry_ok(q, q.nodes[j]));
                if !spec_is_sink(q.nodes[j].1.node_type) {
                    let l = choose|l: int| 0 <= l < q.links.len() && (#[trigger] q.links[l]).from.id == id;
                    assert(prev.contains(q.links[l].to.id));
                }
            }
        }
    }
}

pub open spec fn strings_view(v: Seq<String>) -> Seq<Seq<char>> {
    v.map_values(|s: String| s@)
}

impl AbstractPipeline {
    /// Checks the element named `id`: when it is a dead end (it exists, is not
    /// a sink, and no link leaves it) it is removed together with the links
    /// into it, and the names that those links start from are returned, in
    /// order; otherwise nothing changes and `None` is returned.
    pub fn check_and_remove_dangling_node(&mut self, id: String) -> (r: Option<Vec<String>>)
        ensures
            spec_is_dead_end(old(self)@, id@) ==> r is Some && strings_view(r->0@) == spec_incoming(old(self)@.links, id@)
                && final(self)@ == (PipelineV {
                    nodes: assoc_remove(old(self)@.nodes, id@),
                    links: spec_links_not_to(old(self)@.links, id@),
                }),
            !spec_is_dead_end(old(self)@, id@) ==> r is None && final(self)@ == old(self)@,
    {
        let ghost p = self@;
        let idx = node_index(&self.nodes, id.as_str());
        let i = match idx {
            Some(i) => i,
            None => return None,
        };
        proof {
            lemma_key_index(p.nodes, id@);
        }
        let t = self.nodes[i].1.node_type.as_str();
        if str_eq(t, "splitmuxsink") || str_eq(t, "filesink") {
            return None;
        }
        let mut kept: Vec<AbstractLink> = Vec::new();
        let mut incoming: Vec<String> = Vec::new();
        let mut j: usize = 0;
        while j < self.links.len()
            invariant
                j <= self.links.len(),
                self@ == p,
                links_view(kept@) == spec_links_not_to(p.links.take(j as int), id@),
                strings_view(incoming@) == spec_incoming(p.links.take(j as int), id@),
                forall|k: int| 0 <= k < j ==> p.links[k].from.id != id@,
            decreases self.links.len() - j,
        {
            proof {
                assert(p.links.take(j + 1).drop_last() =~= p.links.take(j as int));
            }
            if str_eq(self.links[j].from.id.as_str(), id.as_str()) {
                assert(p.links[j as int].from.id == id@);
                return None;
            }
            let ghost kv = links_view(kept@);
            let ghost iv = strings_view(incoming@);
            if str_eq(self.links[j].to.id.as_str(), id.as_str()) {
                incoming.push(self.links[j].from.id.clone());
                assert(strings_view(incoming@) =~= iv.push(p.links[j as int].from.id));
            } else {
                kept.push(self.links[j].clone());
                assert(links_view(kept@) =~= kv.push(p.links[j as int]));
            }
            j = j + 1;
        }
        assert(p.links.take(self.links.len() as int) =~= p.links);
        assert(!spec_has_link_from(p.links, id@));
        let ghost nv = self@.nodes;
        self.nodes.remove(i);
        assert(self@.nodes =~= nv.remove(i as int));
        self.links = kept;
        Some(incoming)
    }

    /// Repeatedly removes dead ends (elements that are not sinks and that no
    /// link leaves) with the links into them, until none is left.
    pub fn remove_dangling(&mut self)
        requires
            keys_unique(old(self)@.nodes),
        ensures
            keys_unique(final(self)@.nodes),
            spec_no_dead_ends(final(self)@),
            final(self)@ == spec_prune(old(self)@),
            forall|j: int| 0 <= j < final(self)@.nodes.len() ==> old(self)@.nodes.contains(#[trigger] final(self)@.nodes[j]),
            forall|j: int| 0 <= j < final(self)@.links.len() ==> old(self)@.links.contains(#[trigger] final(self)@.links[j]),
    {
        let ghost start = self@;
        let ghost mut removed: Set<Seq<char>> = Set::empty();
        proof {
            lemma_nodes_without_empty(start.nodes);
            lemma_links_without_empty(start.links);
        }
        let mut worklist: Vec<String> = Vec::new();
        let mut i: usize = 0;
        while i < self.nodes.len()
            invariant
                i <= self.nodes.len(),
                self@ == start,
                worklist@.len() == i,
                forall|j: int| 0 <= j < i ==> (#[trigger] worklist@[j])@ == self@.nodes[j].0,
            decreases self.nodes.len() - i,
        {
            worklist.push(self.nodes[i].0.clone());
            i = i + 1;
        }
        assert forall|j: int| 0 <= j < self@.nodes.len() implies strings_view(worklist@).contains(#[trigger] self@.nodes[j].0) by {
            assert(strings_view(worklist@)[j] == self@.nodes[j].0);
        }
        while worklist.len() > 0
            invariant
                keys_unique(self@.nodes),
                forall|j: int| 0 <= j < self@.nodes.len() ==>
                    strings_view(worklist@).contains(#[trigger] self@.nodes[j].0) || spec_entry_ok(self@, self@.nodes[j]),
                keys_unique(start.nodes),
                self@ == spec_without(start, removed),
                removed.subset_of(spec_doomed_set(start)),
            decreases self.nodes.len(), worklist.len(),
        {
            let ghost before = self@;
            let ghost wl = strings_view(worklist@);
            let next = worklist.remove(0);
            assert(strings_view(worklist@) =~= wl.subrange(1, wl.len() as int));
            let res = self.check_and_remove_dangling_node(next);
            match res {
                Some(v) => {
                    proof {
                        lemma_links_not_to(before.links, next@);
                        crate::assoc::lemma_assoc_remove_unique(before.nodes, next@);
                        lemma_key_index(before.nodes, next@);
                        lemma_dead_end_doomed(start, removed, next@);
                        lemma_nodes_without_remove(start.nodes, removed, next@);
                        lemma_links_without_step(start.links, removed, next@);
                        lemma_nodes_without(start.nodes, removed);
                        lemma_links_without(start.links, removed);
                        removed = removed.insert(next@);
                    }
                    let ghost w1 = strings_view(worklist@);
                    let mut v = v;
                    worklist.append(&mut v);
                    assert(strings_view(worklist@) =~= w1 + spec_incoming(before.links, next@));
                    assert forall|j: int| 0 <= j < self@.nodes.len() implies
                        strings_view(worklist@).contains(#[trigger] self@.nodes[j].0) || spec_entry_ok(self@, self@.nodes[j]) by {
                        let e = self@.nodes[j];
                        assert(before.nodes.contains(e));
                        let k = choose|k: int| 0 <= k < before.nodes.len() && before.nodes[k] == e;
                        assert(e.0 != next@) by {
                            if e.0 == next@ {
                                assert(has_key(self@.nodes, next@)) by {
                                    lemma_key_index(self@.nodes, next@);
                                    crate::assoc::lemma_key_index_unique(self@.nodes, next@, j);
                                }
                            }
                        }
                        if wl.contains(e.0) {
                            let m = choose|m: int| 0 <= m < wl.len() && wl[m] == e.0;
                            assert(m != 0);
                            assert(w1[m - 1] == e.0);
                            assert(strings_view(worklist@)[m - 1] == e.0);
                        } else {
                            assert(spec_entry_ok(before, before.nodes[k]));
                            if !spec_is_sink(e.1.node_type) {
                                let l = choose|l: int| 0 <= l < before.links.len() && (#[trigger] before.links[l]).from.id == e.0;
                                if before.links[l].to.id != next@ {
                                    assert(self@.links.contains(before.links[l]));
                                    let q = choose|q: int| 0 <= q < self@.links.len() && self@.links[q] == before.links[l];
                                    assert(self@.links[q].from.id == e.0);
                                } else {
                                    let inc = spec_incoming(before.links, next@);
                                    assert(inc.contains(e.0));
                                    let q = choose|q: int| 0 <= q < inc.len() && inc[q] == e.0;
                                    assert(strings_view(worklist@)[w1.len() + q] == e.0);
                                }
                            }
                        }
                    }
                },
                None => {
                    assert forall|j: int| 0 <= j < self@.nodes.len() implies
                        strings_view(worklist@).contains(#[trigger] self@.nodes[j].0) || spec_entry_ok(self@, self@.nodes[j]) by {
                        let e = self@.nodes[j];
                        if e.0 == next@ {
                            lemma_key_index(self@.nodes, next@);
                            crate::assoc::lemma_key_index_unique(self@.nodes, next@, j);
                        } else if wl.contains(e.0) {
                            let m = choose|m: int| 0 <= m < wl.len() && wl[m] == e.0;
                            assert(m != 0);
                            assert(strings_view(worklist@)[m - 1] == e.0);
                        }
                    }
                },
            }
        }
        assert forall|j: int| 0 <= j < self@.nodes.len() implies spec_entry_ok(self@, #[trigger] self@.nodes[j]) by {
            if strings_view(worklist@).contains(self@.nodes[j].0) {
                let m = choose|m: int| 0 <= m < strings_view(worklist@).len() && strings_view(worklist@)[m] == self@.nodes[j].0;
            }
        }
        proof {
            assert forall|id: Seq<char>| spec_doomed_set(start).contains(id) implies removed.contains(id) by {
                let k = choose|k: nat| #[trigger] spec_doomed_by(start, k).contains(id);
                lemma_doomed_removed(start, removed, k);
            }
            assert(removed =~= spec_doomed_set(start));
            lemma_nodes_without(start.nodes, removed);
            lemma_links_without(start.links, removed);
            assert forall|j: int| 0 <= j < self@.nodes.len() implies start.nodes.contains(#[trigger] self@.nodes[j]) by {
                assert(self@.nodes.contains(self@.nodes[j]));
            }
            assert forall|j: int| 0 <= j < self@.links.len() implies start.links.contains(#[trigger] self@.links[j]) by {
                assert(self@.links.contains(self@.links[j]));
            }
        }
    }
}


// ---------------------------------------------------------------------------
// Expanding encoder and decoder aliases

pub open spec fn spec_with_props(t: Seq<char>, id: Seq<char>, ps: Seq<(Seq<char>, Seq<char>)>) -> NodeV {
    NodeV { id, node_type: t, properties: ps }
}

/// The elements that an alias stands for, named by `ids` (three names, of
/// which as many are used as the expansion has elements), with the name of
/// the element that takes its input and of the element that gives its output.
pub open spec fn spec_alias_expansion(t: Seq<char>, ids: Seq<Seq<char>>) -> (PipelineV, Seq<char>, Seq<char>) {
    let a = ids[0];
    let b = ids[1];
    let c = ids[2];
    let empty = Seq::<(Seq<char>, NodeV)>::empty();
    if spec_is_encoder(t) {
        if spec_segment_is(t, "video"@) {
            let enc = spec_with_props("nvh264enc"@, a, seq![("bitrate"@, "400"@)]);
            let parse = spec_new_node("h264parse"@, b);
            (PipelineV {
                nodes: spec_add_node(spec_add_node(empty, enc), parse),
                links: seq![spec_plain_link(a, b)],
            }, a, b)
        } else {
            (PipelineV { nodes: spec_add_node(empty, spec_new_node("avenc_aac"@, a)), links: Seq::empty() }, a, a)
        }
    } else {
        if spec_segment_is(t, "video"@) {
            (PipelineV {
                nodes: spec_add_node(spec_add_node(empty, spec_new_node("h264parse"@, a)), spec_new_node("nvh264dec"@, b)),
                links: seq![spec_plain_link(a, b)],
            }, a, b)
        } else {
            (PipelineV {
                nodes: spec_add_node(
                    spec_add_node(spec_add_node(empty, spec_new_node("avdec_aac"@, a)), spec_new_node("audioconvert"@, b)),
                    spec_new_node("audioresample"@, c),
                ),
                links: seq![spec_plain_link(a, b), spec_plain_link(b, c)],
            }, a, c)
        }
    }
}

/// Names of alias elements mapped to the (input, output) names of their expansions.
pub type AliasMap = Seq<(Seq<char>, (Seq<char>, Seq<char>))>;

/// The state after expanding the aliases among the elements `ns`, in order,
/// starting from `p`; `gids[i]` names the elements of the `i`-th expansion.
pub open spec fn spec_expand_aliases(p: PipelineV, ns: Seq<(Seq<char>, NodeV)>, gids: Seq<Seq<Seq<char>>>) -> (PipelineV, AliasMap)
    decreases ns.len(),
{
    if ns.len() == 0 {
        (p, Seq::empty())
    } else {
        let (q, m) = spec_expand_aliases(p, ns.drop_last(), gids.drop_last());
        let n = ns.last().1;
        if spec_is_aliased(n.node_type) {
            let (x, i, o) = spec_alias_expansion(n.node_type, gids.last());
            (spec_merge(q, x), assoc_insert(m, n.id, (i, o)))
        } else {
            (q, m)
        }
    }
}

/// Removes, in order, the elements whose names are keys of `m`.
pub open spec fn spec_remove_keys(ns: Seq<(Seq<char>, NodeV)>, m: AliasMap) -> Seq<(Seq<char>, NodeV)>
    decreases m.len(),
{
    if m.len() == 0 {
        ns
    } else {
        assoc_remove(spec_remove_keys(ns, m.drop_last()), m.last().0)
    }
}

/// A link with its ends moved off alias elements: a link from an alias now
/// leaves the output of its expansion, a link to an alias enters its input.
pub open spec fn spec_redirect(l: LinkV, m: AliasMap) -> LinkV {
    let from = if has_key(m, l.from.id) {
        EndpointV { id: assoc_get(m, l.from.id).1, property: l.from.property }
    } else {
        l.from
    };
    let to = if has_key(m, l.to.id) {
        EndpointV { id: assoc_get(m, l.to.id).0, property: l.to.property }
    } else {
        l.to
    };
    LinkV { from, to }
}

pub open spec fn spec_redirect_links(ls: Seq<LinkV>, m: AliasMap) -> Seq<LinkV> {
    ls.map_values(|l: LinkV| spec_redirect(l, m))
}

/// The pipeline with every alias element replaced by its expansion.
pub open spec fn spec_convert_aliases(p: PipelineV, gids: Seq<Seq<Seq<char>>>) -> PipelineV {
    let (q, m) = spec_expand_aliases(p, p.nodes, gids);
    PipelineV { nodes: spec_remove_keys(q.nodes, m), links: spec_redirect_links(q.links, m) }
}

/// Every alias among the elements has a stream type that can be expanded.
pub open spec fn spec_aliases_expandable(ns: Seq<(Seq<char>, NodeV)>) -> bool {
    forall|j: int| 0 <= j < ns.len() && spec_is_aliased((#[trigger] ns[j]).1.node_type) ==> spec_alias_expandable(ns[j].1.node_type)
}

/// Names drawn for the expansions: three per element, each a UUID's text.
pub open spec fn spec_fresh_triples(gids: Seq<Seq<Seq<char>>>, n: nat) -> bool {
    &&& gids.len() == n
    &&& forall|i: int| 0 <= i < n ==> (#[trigger] gids[i]).len() == 3 && spec_all_uuids(gids[i])
}

/// Whether the segment of an alias `t` after its 8-character prefix is `seg`.
fn segment_is(t: &str, seg: &str) -> (r: bool)
    ensures
        r == spec_segment_is(t@, seg@),
{
    let n = t.unicode_len();
    let m = seg.unicode_len();
    if n < 8 || n - 8 < m {
        return false;
    }
    let mut k: usize = 0;
    while k < m
        invariant
            n == t@.len(),
            m == seg@.len(),
            8 + m <= n,
            k <= m,
            forall|j: int| 0 <= j < k ==> t@[8 + j] == seg@[j],
        decreases m - k,
    {
        if t.get_char(8 + k) != seg.get_char(k) {
            assert(t@.subrange(8, 8 + m as int)[k as int] != seg@[k as int]);
            return false;
        }
        k = k + 1;
    }
    assert(t@.subrange(8, 8 + m as int) =~= seg@);
    n == 8 + m || t.get_char(8 + m) == ':'
}

/// Draws `n` fresh names.
fn fresh_names(n: usize) -> (r: Vec<String>)
    ensures
        r@.len() == n,
        forall|i: int| 0 <= i < n ==> is_uuid_text((#[trigger] r@[i])@),
{
    let mut r: Vec<String> = Vec::new();
    let mut i: usize = 0;
    while i < n
        invariant
            i <= n,
            r@.len() == i,
            forall|j: int| 0 <= j < i ==> is_uuid_text((#[trigger] r@[j])@),
        decreases n - i,
    {
        let f = uniq_id_string();
        let ghost old_r = r@;
        r.push(f);
        assert forall|j: int| 0 <= j < i + 1 implies is_uuid_text((#[trigger] r@[j])@) by {
            if j < i {
                assert(r@[j] == old_r[j]);
            } else {
                assert(r@[j] == f);
            }
        }
        i = i + 1;
    }
    r
}

impl AbstractNode {
    /// The expansion of an alias, its elements named by `ids`.
    fn alias_expansion(&self, ids: &Vec<String>) -> (r: (AbstractPipeline, String, String))
        requires
            ids@.len() == 3,
            spec_alias_expandable(self@.node_type),
        ensures
            (r.0@, r.1@, r.2@) == spec_alias_expansion(self@.node_type, strings_view(ids@)),
    {
        let ghost g = strings_view(ids@);
        let enc = self.is_encoder();
        let video = segment_is(self.node_type.as_str(), "video");
        let mut pipeline = AbstractPipeline::new();
        assert(pipeline@.nodes =~= Seq::<(Seq<char>, NodeV)>::empty());
        assert(pipeline@.links =~= Seq::<LinkV>::empty());
        if enc {
            if video {
                let mut props: Vec<(String, String)> = Vec::new();
                props.push((owned("bitrate"), owned("400")));
                let enc_node = AbstractNode::new_with_props("nvh264enc", Some(ids[0].clone()), props);
                assert(props_view(props@) =~= seq![("bitrate"@, "400"@)]);
                assert(enc_node@ == spec_with_props("nvh264enc"@, g[0], seq![("bitrate"@, "400"@)]));
                let parse_node = AbstractNode::new("h264parse", Some(ids[1].clone()));
                assert(parse_node@ == spec_new_node("h264parse"@, g[1]));
                let input = enc_node.id.clone();
                let output = parse_node.id.clone();
                pipeline.link(&enc_node, &parse_node);
                pipeline.add_node(enc_node);
                pipeline.add_node(parse_node);
                assert(props_view(props@) =~= seq![("bitrate"@, "400"@)]);
                assert(pipeline@.links =~= seq![spec_plain_link(g[0], g[1])]);
                assert(input@ == g[0]);
                assert(output@ == g[1]);
                assert(pipeline@.nodes == spec_alias_expansion(self@.node_type, g).0.nodes);
                assert(pipeline@ == spec_alias_expansion(self@.node_type, g).0);
                (pipeline, input, output)
            } else {
                let node = AbstractNode::new("avenc_aac", Some(ids[0].clone()));
                let input = node.id.clone();
                let output = node.id.clone();
                pipeline.add_node(node);
                (pipeline, input, output)
            }
        } else {
            if video {
                let parse_node = AbstractNode::new("h264parse", Some(ids[0].clone()));
                let dec_node = AbstractNode::new("nvh264dec", Some(ids[1].clone()));
                let input = parse_node.id.clone();
                let output = dec_node.id.clone();
                pipeline.link(&parse_node, &dec_node);
                pipeline.add_node(parse_node);
                pipeline.add_node(dec_node);
                assert(pipeline@.links =~= seq![spec_plain_link(g[0], g[1])]);
                (pipeline, input, output)
            } else {
                let dec_node = AbstractNode::new("avdec_aac", Some(ids[0].clone()));
                let convert_node = AbstractNode::new("audioconvert", Some(ids[1].clone()));
                let resample_node = AbstractNode::new("audioresample", Some(ids[2].clone()));
                let input = dec_node.id.clone();
                let output = resample_node.id.clone();
                pipeline.link(&dec_node, &convert_node);
                pipeline.link(&convert_node, &resample_node);
                pipeline.add_node(dec_node);
                pipeline.add_node(convert_node);
                pipeline.add_node(resample_node);
                assert(pipeline@.links =~= seq![spec_plain_link(g[0], g[1]), spec_plain_link(g[1], g[2])]);
                (pipeline, input, output)
            }
        }
    }

    /// The elements that an encoder or decoder alias stands for, with fresh
    /// names, and the names of the elements that take its input and give its
    /// output. Video is encoded by `nvh264enc` (bitrate 400) and `h264parse`,
    /// audio by `avenc_aac`; video is decoded by `h264parse` and `nvh264dec`,
    /// audio by `avdec_aac`, `audioconvert` and `audioresample`.
    pub fn alias_to_pipeline(&self) -> (r: (AbstractPipeline, String, String))
        requires
            spec_alias_expandable(self@.node_type),
        ensures
            exists|ids: Seq<Seq<char>>| ids.len() == 3
                && (forall|i: int| 0 <= i < 3 ==> is_uuid_text(#[trigger] ids[i]))
                && (r.0@, r.1@, r.2@) == spec_alias_expansion(self@.node_type, ids),
    {
        let ids = fresh_names(3);
        let r = self.alias_expansion(&ids);
        assert(strings_view(ids@).len() == 3);
        assert forall|i: int| 0 <= i < 3 implies is_uuid_text(#[trigger] strings_view(ids@)[i]) by {
            assert(strings_view(ids@)[i] == ids@[i]@);
        }
        r
    }
}

fn clone_nodes(ns: &Vec<(String, AbstractNode)>) -> (r: Vec<(String, AbstractNode)>)
    ensures
        nodes_view(r@) == nodes_view(ns@),
{
    let mut r: Vec<(String, AbstractNode)> = Vec::new();
    let mut i: usize = 0;
    while i < ns.len()
        invariant
            i <= ns.len(),
            nodes_view(r@) =~= nodes_view(ns@.take(i as int)),
        decreases ns.len() - i,
    {
        let ghost rv = nodes_view(r@);
        r.push((ns[i].0.clone(), ns[i].1.clone()));
        assert(nodes_view(r@) =~= rv.push(nodes_view(ns@)[i as int]));
        assert(nodes_view(ns@.take(i + 1)) =~= nodes_view(ns@.take(i as int)).push(nodes_view(ns@)[i as int]));
        i = i + 1;
    }
    assert(ns@.take(ns.len() as int) =~= ns@);
    r
}

pub open spec fn alias_map_view(v: Seq<(String, (String, String))>) -> AliasMap {
    v.map_values(|e: (String, (String, String))| (e.0@, (e.1.0@, e.1.1@)))
}

/// Index of the entry of an alias map with key `k` (the last one), if any.
fn alias_index(m: &Vec<(String, (String, String))>, k: &str) -> (r: Option<usize>)
    ensures
        match r {
            Some(i) => i as int == key_index(alias_map_view(m@), k@),
            None => !has_key(alias_map_view(m@), k@),
        },
{
    let ghost mv = alias_map_view(m@);
    let mut i = m.len();
    while i > 0
        invariant
            i <= m.len(),
            mv == alias_map_view(m@),
            forall|j: int| i <= j < m.len() ==> mv[j].0 != k@,
        decreases i,
    {
        i = i - 1;
        if str_eq(m[i].0.as_str(), k) {
            proof {
                lemma_key_index(mv, k@);
                if key_index(mv, k@) != i {
                    assert(mv[i as int].0 == k@);
                }
            }
            return Some(i);
        }
    }
    proof {
        lemma_key_index(mv, k@);
        if key_index(mv, k@) >= 0 {
            assert(mv[key_index(mv, k@)].0 == k@);
        }
    }
    None
}

impl AbstractPipeline {
    /// Removes the element named `k`, if there is one.
    fn remove_node(&mut self, k: &str)
        ensures
            final(self)@.nodes == assoc_remove(old(self)@.nodes, k@),
            final(self)@.links == old(self)@.links,
    {
        let ghost nv = self@.nodes;
        proof {
            lemma_key_index(nv, k@);
        }
        match node_index(&self.nodes, k) {
            Some(i) => {
                self.nodes.remove(i);
                assert(self@.nodes =~= nv.remove(i as int));
            },
            None => {},
        }
    }

    /// Replaces every encoder and decoder alias by the elements it stands
    /// for, with fresh names, and moves the links of the alias onto them.
    fn convert_aliases(&mut self) -> (gids: Ghost<Seq<Seq<Seq<char>>>>)
        requires
            spec_aliases_expandable(old(self)@.nodes),
        ensures
            spec_fresh_triples(gids@, old(self)@.nodes.len()),
            final(self)@ == spec_convert_aliases(old(self)@, gids@),
    {
        let ghost start = self@;
        let snapshot = clone_nodes(&self.nodes);
        let mut map: Vec<(String, (String, String))> = Vec::new();
        let ghost mut gids: Seq<Seq<Seq<char>>> = Seq::empty();
        let mut i: usize = 0;
        while i < snapshot.len()
            invariant
                i <= snapshot.len(),
                nodes_view(snapshot@) == start.nodes,
                spec_aliases_expandable(start.nodes),
                spec_fresh_triples(gids, i as nat),
                (self@, alias_map_view(map@)) == spec_expand_aliases(start, start.nodes.take(i as int), gids),
            decreases snapshot.len() - i,
        {
            proof {
                assert(start.nodes.take(i + 1).drop_last() =~= start.nodes.take(i as int));
                assert(start.nodes.take(i + 1).last() == start.nodes[i as int]);
            }
            let node = &snapshot[i].1;
            if node.is_aliased() {
                assert(start.nodes[i as int].1 == node@);
                let ids = fresh_names(3);
                let (extra, input, output) = node.alias_expansion(&ids);
                self.merge(extra);
                let key = node.id.clone();
                let ghost mv = alias_map_view(map@);
                proof {
                    lemma_key_index(mv, key@);
                }
                match alias_index(&map, key.as_str()) {
                    Some(j) => {
                        map.set(j, (key, (input, output)));
                        assert(alias_map_view(map@) =~= mv.update(j as int, (node@.id, (input@, output@))));
                    },
                    None => {
                        map.push((key, (input, output)));
                        assert(alias_map_view(map@) =~= mv.push((node@.id, (input@, output@))));
                    },
                }
                proof {
                    let gi = strings_view(ids@);
                    assert forall|k: int| 0 <= k < gi.len() implies is_uuid_text(#[trigger] gi[k]) by {
                        assert(gi[k] == ids@[k]@);
                    }
                    assert(gids.push(gi).drop_last() =~= gids);
                    gids = gids.push(gi);
                }
            } else {
                proof {
                    let u = uuid_hyphenated(0);
                    let gi = seq![u, u, u];
                    assert(is_uuid_text(u));
                    assert(gids.push(gi).drop_last() =~= gids);
                    gids = gids.push(gi);
                }
            }
            i = i + 1;
        }
        assert(start.nodes.take(snapshot.len() as int) =~= start.nodes);
        let ghost q = self@;
        let ghost m = alias_map_view(map@);
        let mut k: usize = 0;
        while k < map.len()
            invariant
                k <= map.len(),
                m == alias_map_view(map@),
                self@.nodes == spec_remove_keys(q.nodes, m.take(k as int)),
                self@.links == q.links,
            decreases map.len() - k,
        {
            proof {
                assert(m.take(k + 1).drop_last() =~= m.take(k as int));
            }
            self.remove_node(map[k].0.as_str());
            k = k + 1;
        }
        assert(m.take(map.len() as int) =~= m);
        let mut new_links: Vec<AbstractLink> = Vec::new();
        let mut j: usize = 0;
        while j < self.links.len()
            invariant
                j <= self.links.len(),
                m == alias_map_view(map@),
                self@.links == q.links,
                links_view(new_links@) =~= spec_redirect_links(q.links.take(j as int), m),
            decreases self.links.len() - j,
        {
            let mut l = self.links[j].clone();
            proof {
                lemma_key_index(m, q.links[j as int].from.id);
                lemma_key_index(m, q.links[j as int].to.id);
            }
            match alias_index(&map, l.from.id.as_str()) {
                Some(x) => {
                    l.from.id = map[x].1.1.clone();
                },
                None => {},
            }
            match alias_index(&map, l.to.id.as_str()) {
                Some(x) => {
                    l.to.id = map[x].1.0.clone();
                },
                None => {},
            }
            let ghost nv = links_view(new_links@);
            new_links.push(l);
            assert(links_view(new_links@) =~= nv.push(spec_redirect(q.links[j as int], m)));
            j = j + 1;
        }
        assert(q.links.take(self.links.len() as int) =~= q.links);
        self.links = new_links;
        Ghost(gids)
    }
}


// ---------------------------------------------------------------------------
// Splitting streams that leave one pad for several elements

/// Number of links leaving each endpoint, in order of first appearance.
pub open spec fn spec_counts(ls: Seq<LinkV>) -> Seq<(EndpointV, nat)>
    decreases ls.len(),
{
    if ls.len() == 0 {
        Seq::empty()
    } else {
        let c = spec_counts(ls.drop_last());
        let e = ls.last().from;
        assoc_insert(c, e, if has_key(c, e) { assoc_get(c, e) + 1 } else { 1 })
    }
}

/// A split endpoint mapped to (tee name, encoder name, stream type).
pub type SplitMap = Seq<(EndpointV, (Seq<char>, Seq<char>, PipeableStreamType))>;

/// The element that leaves a split stream through an encoder into a tee.
pub open spec fn spec_encoder_node(ty: PipeableStreamType, id: Seq<char>) -> NodeV {
    spec_new_node("encoder:"@ + spec_stream_name(ty), id)
}

pub open spec fn spec_decoder_node(ty: PipeableStreamType, id: Seq<char>) -> NodeV {
    spec_new_node("decoder:"@ + spec_stream_name(ty), id)
}

pub open spec fn spec_queue_props() -> Seq<(Seq<char>, Seq<char>)> {
    seq![("max-size-buffers"@, "0"@), ("max-size-bytes"@, "0"@), ("max-size-time"@, "0"@)]
}

/// First phase: for each endpoint with more than one link leaving it, in the
/// order of `cs`, whose element is a converter, an encoder (named `gp[j][0]`)
/// feeding a tee (named `gp[j][1]`) is added.
pub open spec fn spec_split_phase1(p: PipelineV, cs: Seq<(EndpointV, nat)>, gp: Seq<Seq<Seq<char>>>) -> (PipelineV, SplitMap)
    decreases cs.len(),
{
    if cs.len() == 0 {
        (p, Seq::empty())
    } else {
        let (q, io) = spec_split_phase1(p, cs.drop_last(), gp.drop_last());
        let (e, num) = cs.last();
        let pair = gp.last();
        if num > 1 && spec_is_linker(assoc_get(q.nodes, e.id).node_type) {
            let ty = spec_linker_type(assoc_get(q.nodes, e.id).node_type);
            let nodes = spec_add_node(spec_add_node(q.nodes, spec_encoder_node(ty, pair[0])), spec_new_node("tee"@, pair[1]));
            (PipelineV { nodes, links: q.links.push(spec_plain_link(pair[0], pair[1])) }, assoc_insert(io, e, (pair[1], pair[0], ty)))
        } else {
            (q, io)
        }
    }
}

/// Second phase: every link that leaves a split endpoint now leaves a decoder
/// (named `gq[i][1]`), fed through a queue (named `gq[i][0]`) by the tee of
/// that endpoint. Gives the new links and the pipeline of added elements.
pub open spec fn spec_split_phase2(ls: Seq<LinkV>, io: SplitMap, gq: Seq<Seq<Seq<char>>>) -> (Seq<LinkV>, PipelineV)
    decreases ls.len(),
{
    if ls.len() == 0 {
        (Seq::empty(), PipelineV { nodes: Seq::empty(), links: Seq::empty() })
    } else {
        let (nl, x) = spec_split_phase2(ls.drop_last(), io, gq.drop_last());
        let l = ls.last();
        let pair = gq.last();
        if has_key(io, l.from) {
            let (tee, enc, ty) = assoc_get(io, l.from);
            let queue = spec_with_props("queue"@, pair[0], spec_queue_props());
            let dec = spec_decoder_node(ty, pair[1]);
            let links = x.links.push(spec_plain_link(tee, pair[0])).push(spec_plain_link(pair[0], pair[1]));
            let nodes = spec_add_node(spec_add_node(x.nodes, queue), dec);
            (nl.push(LinkV { from: spec_plain_endpoint(pair[1]), to: l.to }), PipelineV { nodes, links })
        } else {
            (nl.push(l), x)
        }
    }
}

/// The links from each split element into its encoder.
pub open spec fn spec_encoder_links(io: SplitMap) -> Seq<LinkV> {
    io.map_values(|e: (EndpointV, (Seq<char>, Seq<char>, PipeableStreamType))| spec_plain_link(e.0.id, e.1.1))
}

/// The pipeline with its split streams encoded once, teed, and decoded for
/// each consumer.
pub open spec fn spec_handle_splits(p: PipelineV, gp: Seq<Seq<Seq<char>>>, gq: Seq<Seq<Seq<char>>>) -> PipelineV {
    let (p1, io) = spec_split_phase1(p, spec_counts(p.links), gp);
    let (nl, extra) = spec_split_phase2(p1.links, io, gq);
    let p2 = spec_merge(PipelineV { nodes: p1.nodes, links: nl }, extra);
    PipelineV { nodes: p2.nodes, links: p2.links + spec_encoder_links(io) }
}

/// Every endpoint with more than one link leaving it belongs to an element.
pub open spec fn spec_split_targets_exist(p: PipelineV) -> bool {
    forall|j: int| 0 <= j < spec_counts(p.links).len() && (#[trigger] spec_counts(p.links)[j]).1 > 1
        ==> has_key(p.nodes, spec_counts(p.links)[j].0.id)
}

/// Names drawn for the splits: two per entry, each a UUID's text.
pub open spec fn spec_pairs(g: Seq<Seq<Seq<char>>>, n: nat) -> bool {
    &&& g.len() == n
    &&& forall|i: int| 0 <= i < n ==> (#[trigger] g[i]).len() == 2 && spec_all_uuids(g[i])
}

pub open spec fn counts_view(v: Seq<(AbstractLinkEndpoint, usize)>) -> Seq<(EndpointV, nat)> {
    v.map_values(|e: (AbstractLinkEndpoint, usize)| (e.0@, e.1 as nat))
}

pub open spec fn split_map_view(v: Seq<(AbstractLinkEndpoint, (String, String, PipeableStreamType))>) -> SplitMap {
    v.map_values(|e: (AbstractLinkEndpoint, (String, String, PipeableStreamType))| (e.0@, (e.1.0@, e.1.1@, e.1.2)))
}

fn count_index(c: &Vec<(AbstractLinkEndpoint, usize)>, e: &AbstractLinkEndpoint) -> (r: Option<usize>)
    ensures
        match r {
            Some(i) => i as int == key_index(counts_view(c@), e@),
            None => !has_key(counts_view(c@), e@),
        },
{
    let ghost cv = counts_view(c@);
    let mut i = c.len();
    while i > 0
        invariant
            i <= c.len(),
            cv == counts_view(c@),
            forall|j: int| i <= j < c.len() ==> cv[j].0 != e@,
        decreases i,
    {
        i = i - 1;
        if c[i].0.same(e) {
            proof {
                lemma_key_index(cv, e@);
                if key_index(cv, e@) != i {
                    assert(cv[i as int].0 == e@);
                }
            }
            return Some(i);
        }
    }
    proof {
        lemma_key_index(cv, e@);
        if key_index(cv, e@) >= 0 {
            assert(cv[key_index(cv, e@)].0 == e@);
        }
    }
    None
}

fn split_index(m: &Vec<(AbstractLinkEndpoint, (String, String, PipeableStreamType))>, e: &AbstractLinkEndpoint) -> (r: Option<usize>)
    ensures
        match r {
            Some(i) => i as int == key_index(split_map_view(m@), e@),
            None => !has_key(split_map_view(m@), e@),
        },
{
    let ghost mv = split_map_view(m@);
    let mut i = m.len();
    while i > 0
        invariant
            i <= m.len(),
            mv == split_map_view(m@),
            forall|j: int| i <= j < m.len() ==> mv[j].0 != e@,
        decreases i,
    {
        i = i - 1;
        if m[i].0.same(e) {
            proof {
                lemma_key_index(mv, e@);
                if key_index(mv, e@) != i {
                    assert(mv[i as int].0 == e@);
                }
            }
            return Some(i);
        }
    }
    proof {
        lemma_key_index(mv, e@);
        if key_index(mv, e@) >= 0 {
            assert(mv[key_index(mv, e@)].0 == e@);
        }
    }
    None
}

proof fn lemma_phase1_keeps_keys(p: PipelineV, cs: Seq<(EndpointV, nat)>, gp: Seq<Seq<Seq<char>>>, k: Seq<char>)
    requires
        has_key(p.nodes, k),
    ensures
        has_key(spec_split_phase1(p, cs, gp).0.nodes, k),
    decreases cs.len(),
{
    if cs.len() > 0 {
        lemma_phase1_keeps_keys(p, cs.drop_last(), gp.drop_last(), k);
        let (q, io) = spec_split_phase1(p, cs.drop_last(), gp.drop_last());
        let (e, num) = cs.last();
        let pair = gp.last();
        if num > 1 && spec_is_linker(assoc_get(q.nodes, e.id).node_type) {
            let ty = spec_linker_type(assoc_get(q.nodes, e.id).node_type);
            let n1 = spec_add_node(q.nodes, spec_encoder_node(ty, pair[0]));
            crate::assoc::lemma_assoc_insert_keeps(q.nodes, pair[0], spec_encoder_node(ty, pair[0]), k);
            crate::assoc::lemma_assoc_insert_keeps(n1, pair[1], spec_new_node("tee"@, pair[1]), k);
        }
    }
}

impl AbstractPipeline {
    /// Where several links leave one endpoint of a converting element, the
    /// stream is encoded once into a tee, and each of those links instead
    /// leaves a decoder fed by the tee through a queue.
    fn handle_splits(&mut self) -> (g: Ghost<(Seq<Seq<Seq<char>>>, Seq<Seq<Seq<char>>>)>)
        requires
            spec_split_targets_exist(old(self)@),
        ensures
            final(self)@ == spec_handle_splits(old(self)@, g@.0, g@.1),
            spec_pairs(g@.0, spec_counts(old(self)@.links).len()),
            spec_pairs(g@.1, g@.1.len()),
    {
        let ghost start = self@;
        // Count the links leaving each endpoint.
        let mut counts: Vec<(AbstractLinkEndpoint, usize)> = Vec::new();
        let mut i: usize = 0;
        while i < self.links.len()
            invariant
                i <= self.links.len(),
                self@ == start,
                counts_view(counts@) == spec_counts(start.links.take(i as int)),
                forall|j: int| 0 <= j < counts@.len() ==> (#[trigger] counts@[j]).1 <= i,
            decreases self.links.len() - i,
        {
            proof {
                assert(start.links.take(i + 1).drop_last() =~= start.links.take(i as int));
            }
            let ghost cv = counts_view(counts@);
            proof {
                lemma_key_index(cv, start.links[i as int].from);
            }
            match count_index(&counts, &self.links[i].from) {
                Some(j) => {
                    let n = counts[j].1 + 1;
                    let e = self.links[i].from.clone();
                    counts.set(j, (e, n));
                    assert(counts_view(counts@) =~= cv.update(j as int, (start.links[i as int].from, cv[j as int].1 + 1)));
                },
                None => {
                    let e = self.links[i].from.clone();
                    counts.push((e, 1));
                    assert(counts_view(counts@) =~= cv.push((start.links[i as int].from, 1)));
                },
            }
            i = i + 1;
        }
        assert(start.links.take(self.links.len() as int) =~= start.links);
        let ghost cs = counts_view(counts@);
        // First phase: an encoder and a tee for each split converter.
        let mut io: Vec<(AbstractLinkEndpoint, (String, String, PipeableStreamType))> = Vec::new();
        let ghost mut gp: Seq<Seq<Seq<char>>> = Seq::empty();
        let mut j: usize = 0;
        while j < counts.len()
            invariant
                j <= counts.len(),
                cs == counts_view(counts@),
                cs == spec_counts(start.links),
                spec_split_targets_exist(start),
                spec_pairs(gp, j as nat),
                (self@, split_map_view(io@)) == spec_split_phase1(start, cs.take(j as int), gp),
            decreases counts.len() - j,
        {
            proof {
                assert(cs.take(j + 1).drop_last() =~= cs.take(j as int));
                assert(cs.take(j + 1).last() == cs[j as int]);
            }
            let ids = fresh_names(2);
            let ghost pair = strings_view(ids@);
            proof {
                assert forall|x: int| 0 <= x < pair.len() implies is_uuid_text(#[trigger] pair[x]) by {
                    assert(pair[x] == ids@[x]@);
                }
            }
            if counts[j].1 > 1 {
                proof {
                    assert(has_key(start.nodes, cs[j as int].0.id));
                    lemma_phase1_keeps_keys(start, cs.take(j as int), gp, cs[j as int].0.id);
                    lemma_key_index(self@.nodes, cs[j as int].0.id);
                }
                let k = node_index(&self.nodes, counts[j].0.id.as_str());
                match k {
                    Some(k) => {
                        if self.nodes[k].1.is_linker() {
                            let ty = self.nodes[k].1.linker_to_type();
                            let name = ty.to_string();
                            let encoder = AbstractNode {
                                id: ids[0].clone(),
                                node_type: cat("encoder:", name.as_str()),
                                properties: Vec::new(),
                            };
                            let tee = AbstractNode::new("tee", Some(ids[1].clone()));
                            assert(encoder@.properties =~= Seq::<(Seq<char>, Seq<char>)>::empty());
                            assert(encoder@ == spec_encoder_node(ty, pair[0]));
                            assert(tee@ == spec_new_node("tee"@, pair[1]));
                            let ep = counts[j].0.clone();
                            let ghost mv = split_map_view(io@);
                            proof {
                                lemma_key_index(mv, ep@);
                            }
                            let entry = (tee.id.clone(), encoder.id.clone(), ty);
                            match split_index(&io, &ep) {
                                Some(x) => {
                                    io.set(x, (ep, entry));
                                    assert(split_map_view(io@) =~= mv.update(x as int, (cs[j as int].0, (pair[1], pair[0], ty))));
                                },
                                None => {
                                    io.push((ep, entry));
                                    assert(split_map_view(io@) =~= mv.push((cs[j as int].0, (pair[1], pair[0], ty))));
                                },
                            }
                            self.link(&encoder, &tee);
                            self.add_node(encoder);
                            self.add_node(tee);
                        }
                    },
                    None => {},
                }
            }
            proof {
                assert(gp.push(pair).drop_last() =~= gp);
                gp = gp.push(pair);
            }
            j = j + 1;
        }
        assert(cs.take(counts.len() as int) =~= cs);
        let ghost p1 = self@;
        let ghost iov = split_map_view(io@);
        // Second phase: a queue and a decoder for each link leaving a split.
        let mut extra = AbstractPipeline::new();
        assert(extra@.nodes =~= Seq::<(Seq<char>, NodeV)>::empty());
        assert(extra@.links =~= Seq::<LinkV>::empty());
        let mut new_links: Vec<AbstractLink> = Vec::new();
        let ghost mut gq: Seq<Seq<Seq<char>>> = Seq::empty();
        let mut k: usize = 0;
        while k < self.links.len()
            invariant
                k <= self.links.len(),
                self@ == p1,
                iov == split_map_view(io@),
                spec_pairs(gq, k as nat),
                (links_view(new_links@), extra@) == spec_split_phase2(p1.links.take(k as int), iov, gq),
            decreases self.links.len() - k,
        {
            proof {
                assert(p1.links.take(k + 1).drop_last() =~= p1.links.take(k as int));
                assert(p1.links.take(k + 1).last() == p1.links[k as int]);
                lemma_key_index(iov, p1.links[k as int].from);
            }
            let ids = fresh_names(2);
            let ghost pair = strings_view(ids@);
            proof {
                assert forall|x: int| 0 <= x < pair.len() implies is_uuid_text(#[trigger] pair[x]) by {
                    assert(pair[x] == ids@[x]@);
                }
            }
            let ghost nl = links_view(new_links@);
            match split_index(&io, &self.links[k].from) {
                Some(x) => {
                    let mut props: Vec<(String, String)> = Vec::new();
                    props.push((owned("max-size-buffers"), owned("0")));
                    props.push((owned("max-size-bytes"), owned("0")));
                    props.push((owned("max-size-time"), owned("0")));
                    assert(props_view(props@) =~= spec_queue_props());
                    let queue = AbstractNode::new_with_props("queue", Some(ids[0].clone()), props);
                    let name = io[x].1.2.to_string();
                    let decoder = AbstractNode {
                        id: ids[1].clone(),
                        node_type: cat("decoder:", name.as_str()),
                        properties: Vec::new(),
                    };
                    assert(decoder@.properties =~= Seq::<(Seq<char>, Seq<char>)>::empty());
                    assert(decoder@ == spec_decoder_node(iov[x as int].1.2, pair[1]));
                    extra.link_abstract(AbstractLink {
                        from: AbstractLinkEndpoint::new(io[x].1.0.clone()),
                        to: AbstractLinkEndpoint::new(queue.id.clone()),
                    });
                    extra.link(&queue, &decoder);
                    let l = AbstractLink { from: AbstractLinkEndpoint::new(decoder.id.clone()), to: self.links[k].to.clone() };
                    new_links.push(l);
                    assert(links_view(new_links@) =~= nl.push(LinkV { from: spec_plain_endpoint(pair[1]), to: p1.links[k as int].to }));
                    extra.add_node(queue);
                    extra.add_node(decoder);
                },
                None => {
                    let l = self.links[k].clone();
                    new_links.push(l);
                    assert(links_view(new_links@) =~= nl.push(p1.links[k as int]));
                },
            }
            proof {
                assert(gq.push(pair).drop_last() =~= gq);
                gq = gq.push(pair);
            }
            k = k + 1;
        }
        assert(p1.links.take(self.links.len() as int) =~= p1.links);
        self.links = new_links;
        self.merge(extra);
        let ghost p2 = self@;
        // The converter of each split feeds its encoder.
        let mut m: usize = 0;
        while m < io.len()
            invariant
                m <= io.len(),
                iov == split_map_view(io@),
                self@.nodes == p2.nodes,
                self@.links =~= p2.links + spec_encoder_links(iov.take(m as int)),
            decreases io.len() - m,
        {
            let l = AbstractLink {
                from: AbstractLinkEndpoint::new(io[m].0.id.clone()),
                to: AbstractLinkEndpoint::new(io[m].1.1.clone()),
            };
            self.link_abstract(l);
            assert(spec_encoder_links(iov.take(m + 1)) =~= spec_encoder_links(iov.take(m as int)).push(spec_plain_link(iov[m as int].0.id, iov[m as int].1.1)));
            m = m + 1;
        }
        assert(iov.take(io.len() as int) =~= iov);
        Ghost((gp, gq))
    }
}


// ---------------------------------------------------------------------------
// Laws of the rewrites

/// Adding elements keeps each name once and each element under its own name;
/// every entry afterwards was there before or is one of the added elements.
pub proof fn lemma_add_nodes_wf(ns: Seq<(Seq<char>, NodeV)>, os: Seq<(Seq<char>, NodeV)>)
    requires
        keys_unique(ns),
    ensures
        keys_unique(spec_add_nodes(ns, os)),
        spec_names_match(ns) ==> spec_names_match(spec_add_nodes(ns, os)),
        forall|j: int| 0 <= j < spec_add_nodes(ns, os).len() ==>
            ns.contains(#[trigger] spec_add_nodes(ns, os)[j])
            || exists|k: int| 0 <= k < os.len() && spec_add_nodes(ns, os)[j] == (os[k].1.id, os[k].1),
    decreases os.len(),
{
    if os.len() > 0 {
        let d = os.drop_last();
        lemma_add_nodes_wf(ns, d);
        let prev = spec_add_nodes(ns, d);
        let n = os.last().1;
        lemma_assoc_insert_unique(prev, n.id, n);
        lemma_assoc_insert_entries(prev, n.id, n);
        let r = spec_add_nodes(ns, os);
        assert forall|j: int| 0 <= j < r.len() implies ns.contains(#[trigger] r[j])
            || exists|k: int| 0 <= k < os.len() && r[j] == (os[k].1.id, os[k].1) by {
            if r[j] == (n.id, n) {
                assert(r[j] == (os[os.len() - 1].1.id, os[os.len() - 1].1));
            } else {
                assert(prev.contains(r[j]));
                let q = choose|q: int| 0 <= q < prev.len() && prev[q] == r[j];
                if !ns.contains(prev[q]) {
                    let k = choose|k: int| 0 <= k < d.len() && prev[q] == (d[k].1.id, d[k].1);
                    assert(os[k] == d[k]);
                }
            }
        }
        if spec_names_match(ns) {
            assert forall|j: int| 0 <= j < r.len() implies (#[trigger] r[j]).0 == r[j].1.id by {
                if r[j] != (n.id, n) {
                    assert(prev.contains(r[j]));
                    let q = choose|q: int| 0 <= q < prev.len() && prev[q] == r[j];
                    assert(prev[q].0 == prev[q].1.id);
                }
            }
        }
    }
}

proof fn lemma_first_char_not_alias(t: Seq<char>)
    requires
        t.len() > 0,
        t[0] != 'e',
        t[0] != 'd',
    ensures
        !spec_is_aliased(t),
{
    reveal_strlit("encoder:");
    reveal_strlit("decoder:");
    if spec_is_encoder(t) {
        assert(t.subrange(0, 8)[0] == "encoder:"@[0]);
    }
    if spec_is_decoder(t) {
        assert(t.subrange(0, 8)[0] == "decoder:"@[0]);
    }
}

/// With three different names, an alias's expansion is a chain: its input
/// and output elements are elements of it, every link joins two of its
/// elements, no element is an alias, and input and output are one element
/// only for the audio encoder.
pub proof fn law_alias_expansion_shape(t: Seq<char>, ids: Seq<Seq<char>>)
    requires
        ids.len() == 3,
        ids[0] != ids[1] && ids[0] != ids[2] && ids[1] != ids[2],
    ensures
        has_key(spec_alias_expansion(t, ids).0.nodes, spec_alias_expansion(t, ids).1),
        has_key(spec_alias_expansion(t, ids).0.nodes, spec_alias_expansion(t, ids).2),
        forall|k: int| 0 <= k < spec_alias_expansion(t, ids).0.links.len() ==> {
            &&& has_key(spec_alias_expansion(t, ids).0.nodes, (#[trigger] spec_alias_expansion(t, ids).0.links[k]).from.id)
            &&& has_key(spec_alias_expansion(t, ids).0.nodes, spec_alias_expansion(t, ids).0.links[k].to.id)
        },
        forall|j: int| 0 <= j < spec_alias_expansion(t, ids).0.nodes.len() ==>
            !spec_is_aliased((#[trigger] spec_alias_expansion(t, ids).0.nodes[j]).1.node_type),
        (spec_alias_expansion(t, ids).1 == spec_alias_expansion(t, ids).2)
            <==> (spec_is_encoder(t) && !spec_segment_is(t, "video"@)),
{
    lemma_expansion_not_aliased(t, ids);
    let a = ids[0];
    let b = ids[1];
    let c = ids[2];
    reveal_with_fuel(key_index, 4);
    let x = spec_alias_expansion(t, ids).0;
    assert forall|k: int| 0 <= k < x.links.len() implies {
        &&& has_key(x.nodes, (#[trigger] x.links[k]).from.id)
        &&& has_key(x.nodes, x.links[k].to.id)
    } by {
        crate::assoc::lemma_has_key_iff(x.nodes, x.links[k].from.id);
        crate::assoc::lemma_has_key_iff(x.nodes, x.links[k].to.id);
        if x.nodes.len() >= 1 { assert(x.nodes[0].0 == a); }
        if x.nodes.len() >= 2 { assert(x.nodes[1].0 == b); }
        if x.nodes.len() >= 3 { assert(x.nodes[2].0 == c); }
    }
}

/// The chain an alias expands to, element by element, from its input element
/// (where the links into the alias go) to its output element (where the links
/// out of it leave), with three different names:
/// - `encoder:video`: `nvh264enc` (at bitrate 400) feeding `h264parse`;
/// - `encoder:audio`: one `avenc_aac`, both input and output;
/// - `decoder:video`: `h264parse` feeding `nvh264dec`;
/// - `decoder:audio`: `avdec_aac` feeding `audioconvert` feeding `audioresample`.
pub proof fn law_alias_expansion_elements(ids: Seq<Seq<char>>)
    requires
        ids.len() == 3,
        ids[0] != ids[1] && ids[0] != ids[2] && ids[1] != ids[2],
    ensures
        ({
            let (x, i, o) = spec_alias_expansion("encoder:"@ + spec_stream_name(PipeableStreamType::Video), ids);
            &&& x.nodes.len() == 2
            &&& has_key(x.nodes, i) && assoc_get(x.nodes, i).node_type == "nvh264enc"@
            &&& assoc_get(x.nodes, i).properties == seq![("bitrate"@, "400"@)]
            &&& has_key(x.nodes, o) && assoc_get(x.nodes, o).node_type == "h264parse"@
            &&& x.links == seq![spec_plain_link(i, o)]
        }),
        ({
            let (x, i, o) = spec_alias_expansion("encoder:"@ + spec_stream_name(PipeableStreamType::Audio), ids);
            &&& x.nodes.len() == 1
            &&& i == o
            &&& has_key(x.nodes, i) && assoc_get(x.nodes, i).node_type == "avenc_aac"@
            &&& x.links.len() == 0
        }),
        ({
            let (x, i, o) = spec_alias_expansion("decoder:"@ + spec_stream_name(PipeableStreamType::Video), ids);
            &&& x.nodes.len() == 2
            &&& has_key(x.nodes, i) && assoc_get(x.nodes, i).node_type == "h264parse"@
            &&& has_key(x.nodes, o) && assoc_get(x.nodes, o).node_type == "nvh264dec"@
            &&& x.links == seq![spec_plain_link(i, o)]
        }),
        ({
            let (x, i, o) = spec_alias_expansion("decoder:"@ + spec_stream_name(PipeableStreamType::Audio), ids);
            &&& x.nodes.len() == 3
            &&& has_key(x.nodes, i) && assoc_get(x.nodes, i).node_type == "avdec_aac"@
            &&& has_key(x.nodes, o) && assoc_get(x.nodes, o).node_type == "audioresample"@
            &&& exists|m: Seq<char>| #[trigger] has_key(x.nodes, m) && assoc_get(x.nodes, m).node_type == "audioconvert"@
                && x.links == seq![spec_plain_link(i, m), spec_plain_link(m, o)]
        }),
{
    reveal_strlit("encoder:");
    reveal_strlit("decoder:");
    reveal_strlit("video");
    reveal_strlit("audio");
    reveal_with_fuel(key_index, 4);
    let a = ids[0];
    let b = ids[1];
    let c = ids[2];
    let ev = "encoder:"@ + "video"@;
    let ea = "encoder:"@ + "audio"@;
    let dv = "decoder:"@ + "video"@;
    let da = "decoder:"@ + "audio"@;
    assert(ev.subrange(0, 8) =~= "encoder:"@);
    assert(ea.subrange(0, 8) =~= "encoder:"@);
    assert(dv.subrange(0, 8)[0] != "encoder:"@[0]);
    assert(da.subrange(0, 8)[0] != "encoder:"@[0]);
    assert(ev.subrange(8, 13) =~= "video"@);
    assert(dv.subrange(8, 13) =~= "video"@);
    assert(ea.subrange(8, 13)[0] != "video"@[0]);
    assert(da.subrange(8, 13)[0] != "video"@[0]);
    assert(spec_is_encoder(ev) && spec_segment_is(ev, "video"@));
    assert(spec_is_encoder(ea) && !spec_segment_is(ea, "video"@));
    assert(!spec_is_encoder(dv) && spec_segment_is(dv, "video"@));
    assert(!spec_is_encoder(da) && !spec_segment_is(da, "video"@));
    let x = spec_alias_expansion(da, ids).0;
    assert(x.nodes[0].0 == a && x.nodes[1].0 == b && x.nodes[2].0 == c);
    assert(has_key(x.nodes, b) && assoc_get(x.nodes, b).node_type == "audioconvert"@);
}

/// The elements an alias expands to are not aliases.
proof fn lemma_expansion_not_aliased(t: Seq<char>, ids: Seq<Seq<char>>)
    ensures
        forall|j: int| 0 <= j < spec_alias_expansion(t, ids).0.nodes.len() ==>
            !spec_is_aliased((#[trigger] spec_alias_expansion(t, ids).0.nodes[j]).1.node_type),
{
    reveal_strlit("nvh264enc");
    reveal_strlit("h264parse");
    reveal_strlit("avenc_aac");
    reveal_strlit("nvh264dec");
    reveal_strlit("avdec_aac");
    reveal_strlit("audioconvert");
    reveal_strlit("audioresample");
    lemma_first_char_not_alias("nvh264enc"@);
    lemma_first_char_not_alias("h264parse"@);
    lemma_first_char_not_alias("avenc_aac"@);
    lemma_first_char_not_alias("nvh264dec"@);
    lemma_first_char_not_alias("avdec_aac"@);
    lemma_first_char_not_alias("audioconvert"@);
    lemma_first_char_not_alias("audioresample"@);
    let x = spec_alias_expansion(t, ids).0;
    let empty = Seq::<(Seq<char>, NodeV)>::empty();
    assert forall|j: int| 0 <= j < x.nodes.len() implies !spec_is_aliased((#[trigger] x.nodes[j]).1.node_type) by {
        let a = ids[0];
        let b = ids[1];
        let c = ids[2];
        if spec_is_encoder(t) {
            if spec_segment_is(t, "video"@) {
                let enc = spec_with_props("nvh264enc"@, a, seq![("bitrate"@, "400"@)]);
                let parse = spec_new_node("h264parse"@, b);
                let n1 = spec_add_node(empty, enc);
                lemma_assoc_insert_entries(empty, enc.id, enc);
                lemma_assoc_insert_entries(n1, parse.id, parse);
                if x.nodes[j] != (parse.id, parse) {
                    assert(n1.contains(x.nodes[j]));
                }
            } else {
                let n = spec_new_node("avenc_aac"@, a);
                lemma_assoc_insert_entries(empty, n.id, n);
            }
        } else {
            if spec_segment_is(t, "video"@) {
                let n0 = spec_new_node("h264parse"@, a);
                let n1 = spec_new_node("nvh264dec"@, b);
                let s1 = spec_add_node(empty, n0);
                lemma_assoc_insert_entries(empty, n0.id, n0);
                lemma_assoc_insert_entries(s1, n1.id, n1);
                if x.nodes[j] != (n1.id, n1) {
                    assert(s1.contains(x.nodes[j]));
                }
            } else {
                let n0 = spec_new_node("avdec_aac"@, a);
                let n1 = spec_new_node("audioconvert"@, b);
                let n2 = spec_new_node("audioresample"@, c);
                let s1 = spec_add_node(empty, n0);
                let s2 = spec_add_node(s1, n1);
                lemma_assoc_insert_entries(empty, n0.id, n0);
                lemma_assoc_insert_entries(s1, n1.id, n1);
                lemma_assoc_insert_entries(s2, n2.id, n2);
                if x.nodes[j] != (n2.id, n2) {
                    assert(s2.contains(x.nodes[j]));
                    let q = choose|q: int| 0 <= q < s2.len() && s2[q] == x.nodes[j];
                    if s2[q] != (n1.id, n1) {
                        assert(s1.contains(s2[q]));
                    }
                }
            }
        }
    }
}

/// While the aliases of `p` are expanded in order, every alias element left
/// is an element of `p` that has been recorded, or is still to be expanded.
proof fn lemma_expand_inv(p: PipelineV, n: int, gids: Seq<Seq<Seq<char>>>)
    requires
        spec_wf(p),
        0 <= n <= p.nodes.len(),
    ensures
        keys_unique(spec_expand_aliases(p, p.nodes.take(n), gids).0.nodes),
        forall|j: int| 0 <= j < spec_expand_aliases(p, p.nodes.take(n), gids).0.nodes.len()
            && spec_is_aliased((#[trigger] spec_expand_aliases(p, p.nodes.take(n), gids).0.nodes[j]).1.node_type) ==>
            exists|k: int| 0 <= k < p.nodes.len() && p.nodes[k] == spec_expand_aliases(p, p.nodes.take(n), gids).0.nodes[j]
                && (k >= n || has_key(spec_expand_aliases(p, p.nodes.take(n), gids).1, p.nodes[k].0)),
    decreases n,
{
    let (q, m) = spec_expand_aliases(p, p.nodes.take(n), gids);
    if n == 0 {
        assert(p.nodes.take(0) =~= Seq::<(Seq<char>, NodeV)>::empty());
        assert forall|j: int| 0 <= j < q.nodes.len() && spec_is_aliased((#[trigger] q.nodes[j]).1.node_type) implies
            exists|k: int| 0 <= k < p.nodes.len() && p.nodes[k] == q.nodes[j] && (k >= n || has_key(m, p.nodes[k].0)) by {
            assert(p.nodes[j] == q.nodes[j]);
        }
    } else {
        lemma_expand_inv(p, n - 1, gids.drop_last());
        assert(p.nodes.take(n).drop_last() =~= p.nodes.take(n - 1));
        assert(p.nodes.take(n).last() == p.nodes[n - 1]);
        let (q0, m0) = spec_expand_aliases(p, p.nodes.take(n - 1), gids.drop_last());
        let node = p.nodes[n - 1].1;
        assert(p.nodes[n - 1].0 == node.id);
        if spec_is_aliased(node.node_type) {
            let (x, i, o) = spec_alias_expansion(node.node_type, gids.last());
            lemma_add_nodes_wf(q0.nodes, x.nodes);
            lemma_expansion_not_aliased(node.node_type, gids.last());
            assert forall|j: int| 0 <= j < q.nodes.len() && spec_is_aliased((#[trigger] q.nodes[j]).1.node_type) implies
                exists|k: int| 0 <= k < p.nodes.len() && p.nodes[k] == q.nodes[j] && (k >= n || has_key(m, p.nodes[k].0)) by {
                if !q0.nodes.contains(q.nodes[j]) {
                    let k = choose|k: int| 0 <= k < x.nodes.len() && q.nodes[j] == (x.nodes[k].1.id, x.nodes[k].1);
                    assert(!spec_is_aliased(x.nodes[k].1.node_type));
                } else {
                    let a = choose|a: int| 0 <= a < q0.nodes.len() && q0.nodes[a] == q.nodes[j];
                    let k = choose|k: int| 0 <= k < p.nodes.len() && p.nodes[k] == q0.nodes[a]
                        && (k >= n - 1 || has_key(m0, p.nodes[k].0));
                    if has_key(m0, p.nodes[k].0) {
                        lemma_assoc_insert_keeps(m0, node.id, (i, o), p.nodes[k].0);
                    } else if k == n - 1 {
                        crate::assoc::lemma_assoc_insert_get(m0, node.id, (i, o), node.id);
                    }
                }
            }
        } else {
            assert forall|j: int| 0 <= j < q.nodes.len() && spec_is_aliased((#[trigger] q.nodes[j]).1.node_type) implies
                exists|k: int| 0 <= k < p.nodes.len() && p.nodes[k] == q.nodes[j] && (k >= n || has_key(m, p.nodes[k].0)) by {
                let k = choose|k: int| 0 <= k < p.nodes.len() && p.nodes[k] == q0.nodes[j]
                    && (k >= n - 1 || has_key(m0, p.nodes[k].0));
                assert(k != n - 1);
            }
        }
    }
}

/// Removing the keys of `m` leaves entries of `ns` none of whose keys is in `m`.
proof fn lemma_remove_keys(ns: Seq<(Seq<char>, NodeV)>, m: AliasMap)
    requires
        keys_unique(ns),
    ensures
        keys_unique(spec_remove_keys(ns, m)),
        forall|j: int| 0 <= j < spec_remove_keys(ns, m).len() ==> ns.contains(#[trigger] spec_remove_keys(ns, m)[j])
            && !has_key(m, spec_remove_keys(ns, m)[j].0),
    decreases m.len(),
{
    if m.len() > 0 {
        let d = m.drop_last();
        lemma_remove_keys(ns, d);
        let prev = spec_remove_keys(ns, d);
        let k = m.last().0;
        lemma_assoc_remove_unique(prev, k);
        let r = spec_remove_keys(ns, m);
        assert forall|j: int| 0 <= j < r.len() implies ns.contains(#[trigger] r[j]) && !has_key(m, r[j].0) by {
            assert(prev.contains(r[j]));
            let a = choose|a: int| 0 <= a < prev.len() && prev[a] == r[j];
            lemma_has_key_iff(r, k);
            lemma_has_key_iff(m, r[j].0);
            lemma_has_key_iff(d, r[j].0);
            if has_key(m, r[j].0) {
                let b = choose|b: int| 0 <= b < m.len() && (#[trigger] m[b]).0 == r[j].0;
                if b < m.len() - 1 {
                    assert(d[b] == m[b]);
                } else {
                    assert(r[j].0 == k);
                }
            }
        }
    }
}

/// Expanding aliases keeps the links of the pipeline first, in order.
proof fn lemma_expand_links_prefix(p: PipelineV, ns: Seq<(Seq<char>, NodeV)>, gids: Seq<Seq<Seq<char>>>)
    ensures
        spec_expand_aliases(p, ns, gids).0.links.len() >= p.links.len(),
        forall|k: int| 0 <= k < p.links.len() ==> #[trigger] spec_expand_aliases(p, ns, gids).0.links[k] == p.links[k],
    decreases ns.len(),
{
    if ns.len() > 0 {
        lemma_expand_links_prefix(p, ns.drop_last(), gids.drop_last());
    }
}

/// Converting aliases redirects each link of the pipeline, in order: a link
/// from an alias leaves the output of its expansion, a link to an alias
/// enters its input, and a link between other elements is kept.
pub proof fn law_convert_aliases_redirects_links(p: PipelineV, gids: Seq<Seq<Seq<char>>>)
    ensures
        spec_convert_aliases(p, gids).links.len() >= p.links.len(),
        forall|k: int| 0 <= k < p.links.len() ==> #[trigger] spec_convert_aliases(p, gids).links[k]
            == spec_redirect(p.links[k], spec_expand_aliases(p, p.nodes, gids).1),
{
    lemma_expand_links_prefix(p, p.nodes, gids);
}

/// Once the aliases are replaced, no encoder or decoder alias is left.
pub proof fn law_convert_aliases_leaves_no_alias(p: PipelineV, gids: Seq<Seq<Seq<char>>>)
    requires
        spec_wf(p),
    ensures
        forall|j: int| 0 <= j < spec_convert_aliases(p, gids).nodes.len() ==>
            !spec_is_aliased((#[trigger] spec_convert_aliases(p, gids).nodes[j]).1.node_type),
{
    let n = p.nodes.len() as int;
    lemma_expand_inv(p, n, gids);
    assert(p.nodes.take(n) =~= p.nodes);
    let (q, m) = spec_expand_aliases(p, p.nodes, gids);
    lemma_remove_keys(q.nodes, m);
    let r = spec_convert_aliases(p, gids);
    assert forall|j: int| 0 <= j < r.nodes.len() implies !spec_is_aliased((#[trigger] r.nodes[j]).1.node_type) by {
        let a = choose|a: int| 0 <= a < q.nodes.len() && q.nodes[a] == r.nodes[j];
        if spec_is_aliased(r.nodes[j].1.node_type) {
            let k = choose|k: int| 0 <= k < p.nodes.len() && p.nodes[k] == q.nodes[a] && (k >= n || has_key(m, p.nodes[k].0));
        }
    }
}

/// The split map of `p`: each endpoint that the first phase of `handle_splits`
/// splits, with the names of its tee and encoder and its stream type.
pub open spec fn spec_split_map(p: PipelineV, gp: Seq<Seq<Seq<char>>>) -> SplitMap {
    spec_split_phase1(p, spec_counts(p.links), gp).1
}

/// The first phase keeps the links of the pipeline first, in order.
proof fn lemma_phase1_links_prefix(p: PipelineV, cs: Seq<(EndpointV, nat)>, gp: Seq<Seq<Seq<char>>>)
    ensures
        spec_split_phase1(p, cs, gp).0.links.len() >= p.links.len(),
        forall|k: int| 0 <= k < p.links.len() ==> #[trigger] spec_split_phase1(p, cs, gp).0.links[k] == p.links[k],
    decreases cs.len(),
{
    if cs.len() > 0 {
        lemma_phase1_links_prefix(p, cs.drop_last(), gp.drop_last());
    }
}

/// The second phase reroutes each link leaving a split endpoint through a
/// queue and a decoder of its own, and keeps the others.
proof fn lemma_phase2_links(ls: Seq<LinkV>, io: SplitMap, gq: Seq<Seq<Seq<char>>>)
    requires
        gq.len() == ls.len(),
    ensures
        spec_split_phase2(ls, io, gq).0.len() == ls.len(),
        forall|k: int| 0 <= k < ls.len() ==> #[trigger] spec_split_phase2(ls, io, gq).0[k] == if has_key(io, ls[k].from) {
            LinkV { from: spec_plain_endpoint(gq[k][1]), to: ls[k].to }
        } else {
            ls[k]
        },
        forall|k: int| 0 <= k < ls.len() && has_key(io, #[trigger] ls[k].from) ==> {
            &&& spec_split_phase2(ls, io, gq).1.links.contains(spec_plain_link(assoc_get(io, ls[k].from).0, gq[k][0]))
            &&& spec_split_phase2(ls, io, gq).1.links.contains(spec_plain_link(gq[k][0], gq[k][1]))
        },
    decreases ls.len(),
{
    if ls.len() > 0 {
        let d = ls.drop_last();
        let gd = gq.drop_last();
        lemma_phase2_links(d, io, gd);
        let (nl0, x0) = spec_split_phase2(d, io, gd);
        let (nl, x) = spec_split_phase2(ls, io, gq);
        let n = ls.len() - 1;
        assert(ls[n] == ls.last());
        assert(gq[n] == gq.last());
        assert forall|k: int| 0 <= k < ls.len() implies #[trigger] nl[k] == if has_key(io, ls[k].from) {
            LinkV { from: spec_plain_endpoint(gq[k][1]), to: ls[k].to }
        } else {
            ls[k]
        } by {
            if k < n {
                assert(nl[k] == nl0[k]);
                assert(d[k] == ls[k] && gd[k] == gq[k]);
            }
        }
        assert forall|k: int| 0 <= k < ls.len() && has_key(io, #[trigger] ls[k].from) implies {
            &&& x.links.contains(spec_plain_link(assoc_get(io, ls[k].from).0, gq[k][0]))
            &&& x.links.contains(spec_plain_link(gq[k][0], gq[k][1]))
        } by {
            if k < n {
                assert(d[k] == ls[k] && gd[k] == gq[k]);
                let a = choose|a: int| 0 <= a < x0.links.len() && x0.links[a] == spec_plain_link(assoc_get(io, ls[k].from).0, gq[k][0]);
                let b = choose|b: int| 0 <= b < x0.links.len() && x0.links[b] == spec_plain_link(gq[k][0], gq[k][1]);
                assert(x.links[a] == x0.links[a]);
                assert(x.links[b] == x0.links[b]);
            } else {
                assert(x.links[x0.links.len() as int] == spec_plain_link(assoc_get(io, ls[k].from).0, gq[k][0]));
                assert(x.links[x0.links.len() as int + 1] == spec_plain_link(gq[k][0], gq[k][1]));
            }
        }
    }
}

/// Handling splits reroutes each link that leaves a split endpoint: it now
/// leaves a decoder (named `gq[k][1]`), fed by a queue (named `gq[k][0]`) that
/// the endpoint's tee feeds. Every other link is kept, and each split element
/// feeds its encoder.
pub proof fn law_handle_splits_reroutes(p: PipelineV, gp: Seq<Seq<Seq<char>>>, gq: Seq<Seq<Seq<char>>>)
    requires
        gq.len() == spec_split_phase1(p, spec_counts(p.links), gp).0.links.len(),
    ensures
        forall|k: int| 0 <= k < p.links.len() && has_key(spec_split_map(p, gp), #[trigger] p.links[k].from) ==> {
            &&& spec_handle_splits(p, gp, gq).links.contains(LinkV { from: spec_plain_endpoint(gq[k][1]), to: p.links[k].to })
            &&& spec_handle_splits(p, gp, gq).links.contains(spec_plain_link(gq[k][0], gq[k][1]))
            &&& spec_handle_splits(p, gp, gq).links.contains(
                spec_plain_link(assoc_get(spec_split_map(p, gp), p.links[k].from).0, gq[k][0]))
        },
        forall|k: int| 0 <= k < p.links.len() && !has_key(spec_split_map(p, gp), #[trigger] p.links[k].from) ==>
            spec_handle_splits(p, gp, gq).links.contains(p.links[k]),
        forall|j: int| 0 <= j < spec_split_map(p, gp).len() ==> spec_handle_splits(p, gp, gq).links.contains(
            spec_plain_link((#[trigger] spec_split_map(p, gp)[j]).0.id, spec_split_map(p, gp)[j].1.1)),
{
    let (p1, io) = spec_split_phase1(p, spec_counts(p.links), gp);
    lemma_phase1_links_prefix(p, spec_counts(p.links), gp);
    lemma_phase2_links(p1.links, io, gq);
    let (nl, extra) = spec_split_phase2(p1.links, io, gq);
    let r = spec_handle_splits(p, gp, gq);
    assert(r.links == nl + extra.links + spec_encoder_links(io));
    assert forall|k: int| 0 <= k < p.links.len() && has_key(io, #[trigger] p.links[k].from) implies {
        &&& r.links.contains(LinkV { from: spec_plain_endpoint(gq[k][1]), to: p.links[k].to })
        &&& r.links.contains(spec_plain_link(gq[k][0], gq[k][1]))
        &&& r.links.contains(spec_plain_link(assoc_get(io, p.links[k].from).0, gq[k][0]))
    } by {
        assert(p1.links[k] == p.links[k]);
        assert(r.links[k] == nl[k]);
        let a = choose|a: int| 0 <= a < extra.links.len() && extra.links[a] == spec_plain_link(assoc_get(io, p1.links[k].from).0, gq[k][0]);
        let b = choose|b: int| 0 <= b < extra.links.len() && extra.links[b] == spec_plain_link(gq[k][0], gq[k][1]);
        assert(r.links[nl.len() + a] == extra.links[a]);
        assert(r.links[nl.len() + b] == extra.links[b]);
    }
    assert forall|k: int| 0 <= k < p.links.len() && !has_key(io, #[trigger] p.links[k].from) implies r.links.contains(p.links[k]) by {
        assert(p1.links[k] == p.links[k]);
        assert(r.links[k] == nl[k]);
    }
    assert forall|j: int| 0 <= j < io.len() implies r.links.contains(spec_plain_link((#[trigger] io[j]).0.id, io[j].1.1)) by {
        assert(r.links[nl.len() + extra.links.len() + j] == spec_encoder_links(io)[j]);
    }
}

/// What alias `i` of `p` expands to: its elements and links, named by `gids[i]`.
pub open spec fn spec_expansion_of(p: PipelineV, gids: Seq<Seq<Seq<char>>>, i: int) -> PipelineV {
    spec_alias_expansion(p.nodes[i].1.node_type, gids[i]).0
}

/// The names the expansions give their elements are new: none is a name of
/// `p`, and no two expansions share one.
pub open spec fn spec_expansion_names_fresh(p: PipelineV, gids: Seq<Seq<Seq<char>>>) -> bool {
    &&& forall|i: int, k: int| 0 <= i < p.nodes.len() && spec_is_aliased(p.nodes[i].1.node_type)
        && 0 <= k < spec_expansion_of(p, gids, i).nodes.len()
        ==> !has_key(p.nodes, (#[trigger] spec_expansion_of(p, gids, i).nodes[k]).0)
    &&& forall|i: int, i2: int, k: int, k2: int|
        #![trigger spec_expansion_of(p, gids, i).nodes[k], spec_expansion_of(p, gids, i2).nodes[k2]]
        0 <= i < i2 < p.nodes.len() && spec_is_aliased(p.nodes[i].1.node_type) && spec_is_aliased(p.nodes[i2].1.node_type)
        && 0 <= k < spec_expansion_of(p, gids, i).nodes.len() && 0 <= k2 < spec_expansion_of(p, gids, i2).nodes.len()
        ==> spec_expansion_of(p, gids, i).nodes[k].0 != spec_expansion_of(p, gids, i2).nodes[k2].0
}

/// Adding an element keeps each name once and each element under its own name.
proof fn lemma_add_node_wf(ns: Seq<(Seq<char>, NodeV)>, n: NodeV, k: Seq<char>)
    requires
        keys_unique(ns),
        spec_names_match(ns),
    ensures
        keys_unique(spec_add_node(ns, n)),
        spec_names_match(spec_add_node(ns, n)),
        has_key(spec_add_node(ns, n), k) == (k == n.id || has_key(ns, k)),
{
    lemma_assoc_insert_unique(ns, n.id, n);
    lemma_assoc_insert_entries(ns, n.id, n);
    crate::assoc::lemma_assoc_insert_get(ns, n.id, n, k);
    let r = spec_add_node(ns, n);
    assert forall|i: int| 0 <= i < r.len() implies (#[trigger] r[i]).0 == r[i].1.id by {
        if r[i] != (n.id, n) {
            let j = choose|j: int| 0 <= j < ns.len() && ns[j] == r[i];
        }
    }
}

/// An expansion holds each name once, each element under its own name, and
/// its links join its own elements, at no particular pad.
proof fn lemma_expansion_wf(t: Seq<char>, ids: Seq<Seq<char>>)
    ensures
        keys_unique(spec_alias_expansion(t, ids).0.nodes),
        spec_names_match(spec_alias_expansion(t, ids).0.nodes),
        forall|k: int| 0 <= k < spec_alias_expansion(t, ids).0.links.len() ==> {
            &&& has_key(spec_alias_expansion(t, ids).0.nodes, (#[trigger] spec_alias_expansion(t, ids).0.links[k]).from.id)
            &&& has_key(spec_alias_expansion(t, ids).0.nodes, spec_alias_expansion(t, ids).0.links[k].to.id)
            &&& spec_alias_expansion(t, ids).0.links[k].from.property is None
            &&& spec_alias_expansion(t, ids).0.links[k].to.property is None
        },
{
    let a = ids[0];
    let b = ids[1];
    let c = ids[2];
    let empty = Seq::<(Seq<char>, NodeV)>::empty();
    let x = spec_alias_expansion(t, ids).0;
    if spec_is_encoder(t) {
        if spec_segment_is(t, "video"@) {
            let enc = spec_with_props("nvh264enc"@, a, seq![("bitrate"@, "400"@)]);
            let parse = spec_new_node("h264parse"@, b);
            let n1 = spec_add_node(empty, enc);
            lemma_add_node_wf(empty, enc, a);
            lemma_add_node_wf(n1, parse, a);
            lemma_add_node_wf(n1, parse, b);
        } else {
            lemma_add_node_wf(empty, spec_new_node("avenc_aac"@, a), a);
        }
    } else {
        if spec_segment_is(t, "video"@) {
            let n1 = spec_add_node(empty, spec_new_node("h264parse"@, a));
            lemma_add_node_wf(empty, spec_new_node("h264parse"@, a), a);
            lemma_add_node_wf(n1, spec_new_node("nvh264dec"@, b), a);
            lemma_add_node_wf(n1, spec_new_node("nvh264dec"@, b), b);
        } else {
            let n1 = spec_add_node(empty, spec_new_node("avdec_aac"@, a));
            let n2 = spec_add_node(n1, spec_new_node("audioconvert"@, b));
            lemma_add_node_wf(empty, spec_new_node("avdec_aac"@, a), a);
            lemma_add_node_wf(n1, spec_new_node("audioconvert"@, b), a);
            lemma_add_node_wf(n1, spec_new_node("audioconvert"@, b), b);
            lemma_add_node_wf(n2, spec_new_node("audioresample"@, c), a);
            lemma_add_node_wf(n2, spec_new_node("audioresample"@, c), b);
            lemma_add_node_wf(n2, spec_new_node("audioresample"@, c), c);
        }
    }
}

/// Adding elements whose names differ from that of an entry keeps the entry.
proof fn lemma_add_nodes_keeps(ns: Seq<(Seq<char>, NodeV)>, os: Seq<(Seq<char>, NodeV)>, e: (Seq<char>, NodeV))
    requires
        ns.contains(e),
        forall|k: int| 0 <= k < os.len() ==> (#[trigger] os[k]).1.id != e.0,
    ensures
        spec_add_nodes(ns, os).contains(e),
    decreases os.len(),
{
    if os.len() > 0 {
        let d = os.drop_last();
        assert forall|k: int| 0 <= k < d.len() implies (#[trigger] d[k]).1.id != e.0 by {
            assert(d[k] == os[k]);
        }
        lemma_add_nodes_keeps(ns, d, e);
        let prev = spec_add_nodes(ns, d);
        let o = os.last().1;
        assert(os[os.len() - 1] == os.last());
        lemma_assoc_insert_entries(prev, o.id, o);
        let j = choose|j: int| 0 <= j < prev.len() && prev[j] == e;
        assert(prev[j].0 != o.id);
    }
}

/// Adding elements held each under its own name, each name once, adds each of them.
proof fn lemma_add_nodes_adds(ns: Seq<(Seq<char>, NodeV)>, os: Seq<(Seq<char>, NodeV)>, k: int)
    requires
        keys_unique(os),
        spec_names_match(os),
        0 <= k < os.len(),
    ensures
        spec_add_nodes(ns, os).contains(os[k]),
    decreases os.len(),
{
    let d = os.drop_last();
    let prev = spec_add_nodes(ns, d);
    let o = os.last().1;
    assert(os[os.len() - 1] == os.last());
    if k == os.len() - 1 {
        crate::assoc::lemma_assoc_insert_get(prev, o.id, o, o.id);
        let r = spec_add_nodes(ns, os);
        lemma_key_index(r, o.id);
        assert(r[key_index(r, o.id)] == os[k]);
    } else {
        assert forall|i: int, j: int| 0 <= i < d.len() && 0 <= j < d.len() && i != j implies d[i].0 != d[j].0 by {
            assert(d[i] == os[i] && d[j] == os[j]);
        }
        assert forall|i: int| 0 <= i < d.len() implies (#[trigger] d[i]).0 == d[i].1.id by {
            assert(d[i] == os[i]);
        }
        assert(d[k] == os[k]);
        lemma_add_nodes_adds(ns, d, k);
        lemma_assoc_insert_entries(prev, o.id, o);
        let j = choose|j: int| 0 <= j < prev.len() && prev[j] == os[k];
        assert(prev[j].0 != o.id);
    }
}

/// Removing a key keeps the entries under other keys.
proof fn lemma_assoc_remove_keeps(s: Seq<(Seq<char>, NodeV)>, k: Seq<char>, e: (Seq<char>, NodeV))
    requires
        s.contains(e),
        e.0 != k,
    ensures
        assoc_remove(s, k).contains(e),
{
    lemma_key_index(s, k);
    let i = key_index(s, k);
    let j = choose|j: int| 0 <= j < s.len() && s[j] == e;
    let r = assoc_remove(s, k);
    if i >= 0 {
        if j < i {
            assert(r[j] == s[j]);
        } else {
            assert(j != i);
            assert(r[j - 1] == s[j]);
        }
    }
}

/// Removing the keys of `m` keeps the entries under other keys.
proof fn lemma_remove_keys_keeps(ns: Seq<(Seq<char>, NodeV)>, m: AliasMap, e: (Seq<char>, NodeV))
    requires
        ns.contains(e),
        !has_key(m, e.0),
    ensures
        spec_remove_keys(ns, m).contains(e),
    decreases m.len(),
{
    if m.len() > 0 {
        let d = m.drop_last();
        lemma_has_key_iff(m, e.0);
        lemma_has_key_iff(d, e.0);
        if has_key(d, e.0) {
            let b = choose|b: int| 0 <= b < d.len() && (#[trigger] d[b]).0 == e.0;
            assert(m[b] == d[b]);
        }
        lemma_remove_keys_keeps(ns, d, e);
        assert(m[m.len() - 1] == m.last());
        lemma_assoc_remove_keeps(spec_remove_keys(ns, d), m.last().0, e);
    }
}

/// What expanding the first `t` elements of `p` keeps and adds.
proof fn lemma_expand_keeps(p: PipelineV, gids: Seq<Seq<Seq<char>>>, t: int)
    requires
        spec_wf(p),
        gids.len() == p.nodes.len(),
        0 <= t <= p.nodes.len(),
        spec_expansion_names_fresh(p, gids),
    ensures
        forall|j: int| 0 <= j < p.nodes.len() && !spec_is_aliased((#[trigger] p.nodes[j]).1.node_type)
            ==> spec_expand_aliases(p, p.nodes.take(t), gids.take(t)).0.nodes.contains(p.nodes[j]),
        forall|i: int, k: int| 0 <= i < t && spec_is_aliased(p.nodes[i].1.node_type) && 0 <= k < spec_expansion_of(p, gids, i).nodes.len()
            ==> spec_expand_aliases(p, p.nodes.take(t), gids.take(t)).0.nodes.contains(#[trigger] spec_expansion_of(p, gids, i).nodes[k]),
        forall|i: int, k: int| 0 <= i < t && spec_is_aliased(p.nodes[i].1.node_type) && 0 <= k < spec_expansion_of(p, gids, i).links.len()
            ==> spec_expand_aliases(p, p.nodes.take(t), gids.take(t)).0.links.contains(#[trigger] spec_expansion_of(p, gids, i).links[k]),
        forall|key: Seq<char>| #[trigger] has_key(spec_expand_aliases(p, p.nodes.take(t), gids.take(t)).1, key)
            ==> exists|j: int| 0 <= j < t && spec_is_aliased(p.nodes[j].1.node_type) && (#[trigger] p.nodes[j]).0 == key,
    decreases t,
{
    let (q, m) = spec_expand_aliases(p, p.nodes.take(t), gids.take(t));
    if t == 0 {
        assert(p.nodes.take(0) =~= Seq::<(Seq<char>, NodeV)>::empty());
        assert forall|j: int| 0 <= j < p.nodes.len() && !spec_is_aliased((#[trigger] p.nodes[j]).1.node_type)
            implies q.nodes.contains(p.nodes[j]) by {
            assert(q.nodes[j] == p.nodes[j]);
        }
        assert forall|key: Seq<char>| #[trigger] has_key(m, key)
            implies exists|j: int| 0 <= j < t && spec_is_aliased(p.nodes[j].1.node_type) && (#[trigger] p.nodes[j]).0 == key by {
            lemma_has_key_iff(m, key);
        }
    } else {
        lemma_expand_keeps(p, gids, t - 1);
        assert(p.nodes.take(t).drop_last() =~= p.nodes.take(t - 1));
        assert(gids.take(t).drop_last() =~= gids.take(t - 1));
        assert(p.nodes.take(t).last() == p.nodes[t - 1]);
        assert(gids.take(t).last() == gids[t - 1]);
        let (q0, m0) = spec_expand_aliases(p, p.nodes.take(t - 1), gids.take(t - 1));
        let node = p.nodes[t - 1].1;
        assert(p.nodes[t - 1].0 == node.id);
        if spec_is_aliased(node.node_type) {
            let (x, i, o) = spec_alias_expansion(node.node_type, gids[t - 1]);
            assert(x == spec_expansion_of(p, gids, t - 1));
            lemma_expansion_wf(node.node_type, gids[t - 1]);
            assert forall|j: int| 0 <= j < p.nodes.len() && !spec_is_aliased((#[trigger] p.nodes[j]).1.node_type)
                implies q.nodes.contains(p.nodes[j]) by {
                assert forall|k: int| 0 <= k < x.nodes.len() implies (#[trigger] x.nodes[k]).1.id != p.nodes[j].0 by {
                    assert(!has_key(p.nodes, spec_expansion_of(p, gids, t - 1).nodes[k].0));
                    lemma_has_key_iff(p.nodes, p.nodes[j].0);
                }
                lemma_add_nodes_keeps(q0.nodes, x.nodes, p.nodes[j]);
            }
            assert forall|i2: int, k: int| 0 <= i2 < t && spec_is_aliased(p.nodes[i2].1.node_type)
                && 0 <= k < spec_expansion_of(p, gids, i2).nodes.len()
                implies q.nodes.contains(#[trigger] spec_expansion_of(p, gids, i2).nodes[k]) by {
                if i2 == t - 1 {
                    lemma_add_nodes_adds(q0.nodes, x.nodes, k);
                } else {
                    let y = spec_expansion_of(p, gids, i2);
                    lemma_expansion_wf(p.nodes[i2].1.node_type, gids[i2]);
                    assert forall|k2: int| 0 <= k2 < x.nodes.len() implies (#[trigger] x.nodes[k2]).1.id != y.nodes[k].0 by {
                        assert(spec_expansion_of(p, gids, i2).nodes[k].0 != spec_expansion_of(p, gids, t - 1).nodes[k2].0);
                    }
                    lemma_add_nodes_keeps(q0.nodes, x.nodes, y.nodes[k]);
                }
            }
            assert forall|i2: int, k: int| 0 <= i2 < t && spec_is_aliased(p.nodes[i2].1.node_type)
                && 0 <= k < spec_expansion_of(p, gids, i2).links.len()
                implies q.links.contains(#[trigger] spec_expansion_of(p, gids, i2).links[k]) by {
                if i2 == t - 1 {
                    assert(q.links[q0.links.len() + k] == x.links[k]);
                } else {
                    let a = choose|a: int| 0 <= a < q0.links.len() && q0.links[a] == spec_expansion_of(p, gids, i2).links[k];
                    assert(q.links[a] == q0.links[a]);
                }
            }
            assert forall|key: Seq<char>| #[trigger] has_key(m, key)
                implies exists|j: int| 0 <= j < t && spec_is_aliased(p.nodes[j].1.node_type) && (#[trigger] p.nodes[j]).0 == key by {
                crate::assoc::lemma_assoc_insert_get(m0, node.id, (i, o), key);
                if key != node.id {
                    assert(has_key(m0, key));
                }
            }
        }
    }
}

/// Converting aliases keeps every element that is not an alias, and adds the
/// elements and the links of each alias's expansion, as long as the names
/// drawn for the expansions are new.
pub proof fn law_convert_aliases_keeps_and_expands(p: PipelineV, gids: Seq<Seq<Seq<char>>>)
    requires
        spec_wf(p),
        gids.len() == p.nodes.len(),
        spec_expansion_names_fresh(p, gids),
    ensures
        forall|j: int| 0 <= j < p.nodes.len() && !spec_is_aliased((#[trigger] p.nodes[j]).1.node_type)
            ==> spec_convert_aliases(p, gids).nodes.contains(p.nodes[j]),
        forall|i: int, k: int| 0 <= i < p.nodes.len() && spec_is_aliased(p.nodes[i].1.node_type) && 0 <= k < spec_expansion_of(p, gids, i).nodes.len()
            ==> spec_convert_aliases(p, gids).nodes.contains(#[trigger] spec_expansion_of(p, gids, i).nodes[k]),
        forall|i: int, k: int| 0 <= i < p.nodes.len() && spec_is_aliased(p.nodes[i].1.node_type) && 0 <= k < spec_expansion_of(p, gids, i).links.len()
            ==> spec_convert_aliases(p, gids).links.contains(#[trigger] spec_expansion_of(p, gids, i).links[k]),
{
    let n = p.nodes.len() as int;
    lemma_expand_keeps(p, gids, n);
    assert(p.nodes.take(n) =~= p.nodes);
    assert(gids.take(n) =~= gids);
    let (q, m) = spec_expand_aliases(p, p.nodes, gids);
    let r = spec_convert_aliases(p, gids);
    assert forall|j: int| 0 <= j < p.nodes.len() && !spec_is_aliased((#[trigger] p.nodes[j]).1.node_type)
        implies r.nodes.contains(p.nodes[j]) by {
        if has_key(m, p.nodes[j].0) {
            let j2 = choose|j2: int| 0 <= j2 < n && spec_is_aliased(p.nodes[j2].1.node_type) && (#[trigger] p.nodes[j2]).0 == p.nodes[j].0;
        }
        lemma_remove_keys_keeps(q.nodes, m, p.nodes[j]);
    }
    assert forall|i: int, k: int| 0 <= i < p.nodes.len() && spec_is_aliased(p.nodes[i].1.node_type)
        && 0 <= k < spec_expansion_of(p, gids, i).nodes.len()
        implies r.nodes.contains(#[trigger] spec_expansion_of(p, gids, i).nodes[k]) by {
        let e = spec_expansion_of(p, gids, i).nodes[k];
        if has_key(m, e.0) {
            let j2 = choose|j2: int| 0 <= j2 < n && spec_is_aliased(p.nodes[j2].1.node_type) && (#[trigger] p.nodes[j2]).0 == e.0;
            lemma_has_key_iff(p.nodes, e.0);
        }
        lemma_remove_keys_keeps(q.nodes, m, e);
    }
    assert forall|i: int, k: int| 0 <= i < p.nodes.len() && spec_is_aliased(p.nodes[i].1.node_type)
        && 0 <= k < spec_expansion_of(p, gids, i).links.len()
        implies r.links.contains(#[trigger] spec_expansion_of(p, gids, i).links[k]) by {
        let x = spec_expansion_of(p, gids, i);
        let l = x.links[k];
        lemma_expansion_wf(p.nodes[i].1.node_type, gids[i]);
        let a = choose|a: int| 0 <= a < q.links.len() && q.links[a] == l;
        assert forall|id: Seq<char>| has_key(x.nodes, id) implies !has_key(m, id) by {
            lemma_has_key_iff(x.nodes, id);
            let b = choose|b: int| 0 <= b < x.nodes.len() && (#[trigger] x.nodes[b]).0 == id;
            assert(!has_key(p.nodes, spec_expansion_of(p, gids, i).nodes[b].0));
            if has_key(m, id) {
                let j2 = choose|j2: int| 0 <= j2 < n && spec_is_aliased(p.nodes[j2].1.node_type) && (#[trigger] p.nodes[j2]).0 == id;
                lemma_has_key_iff(p.nodes, id);
            }
        }
        assert(!has_key(m, l.from.id) && !has_key(m, l.to.id));
        assert(spec_redirect(l, m) == l);
        assert(r.links[a] == l);
    }
}


// ---------------------------------------------------------------------------
// The whole rewrite

/// No endpoint of a `subparse` element has more than one link leaving it
/// (subtitle streams cannot be encoded for a split).
pub open spec fn spec_no_subtitle_split(p: PipelineV) -> bool {
    forall|j: int| 0 <= j < spec_counts(p.links).len() && (#[trigger] spec_counts(p.links)[j]).1 > 1
        && has_key(p.nodes, spec_counts(p.links)[j].0.id)
        ==> assoc_get(p.nodes, spec_counts(p.links)[j].0.id).node_type != "subparse"@
}

/// What `to_gstreamer_pipeline` needs of a pipeline: each name once, an
/// element behind every split endpoint, only aliases that can be expanded,
/// and no split subtitle stream.
pub open spec fn spec_rewritable(p: PipelineV) -> bool {
    &&& keys_unique(p.nodes)
    &&& spec_split_targets_exist(p)
    &&& spec_aliases_expandable(p.nodes)
    &&& spec_no_subtitle_split(p)
}

/// `b` is `a` with dead ends removed: each name once, no dead end left,
/// every element and link of `b` is one of `a`, and `b` is `spec_prune(a)`.
pub open spec fn spec_pruned(a: PipelineV, b: PipelineV) -> bool {
    &&& b == spec_prune(a)
    &&& keys_unique(b.nodes)
    &&& spec_no_dead_ends(b)
    &&& forall|j: int| 0 <= j < b.nodes.len() ==> a.nodes.contains(#[trigger] b.nodes[j])
    &&& forall|j: int| 0 <= j < b.links.len() ==> a.links.contains(#[trigger] b.links[j])
}

/// The rewrites of `to_gstreamer_pipeline` took `p` to `r`: `gp` and `gq` name
/// the elements added for splits, `gids` those of the alias expansions.
pub open spec fn spec_rewritten(p: PipelineV, r: PipelineV, gp: Seq<Seq<Seq<char>>>, gq: Seq<Seq<Seq<char>>>,
    s2: PipelineV, gids: Seq<Seq<Seq<char>>>) -> bool {
    &&& spec_pruned(spec_handle_splits(p, gp, gq), s2)
    &&& spec_pruned(spec_convert_aliases(s2, gids), r)
}

proof fn lemma_alias_names_expandable(ty: PipeableStreamType)
    requires
        ty != PipeableStreamType::Subtitles,
    ensures
        spec_alias_expandable("encoder:"@ + spec_stream_name(ty)),
        spec_alias_expandable("decoder:"@ + spec_stream_name(ty)),
        !spec_is_linker("encoder:"@ + spec_stream_name(ty)),
{
    reveal_strlit("encoder:");
    reveal_strlit("decoder:");
    reveal_strlit("video");
    reveal_strlit("audio");
    reveal_strlit("videoconvert");
    reveal_strlit("audioconvert");
    reveal_strlit("subparse");
    let e = "encoder:"@ + spec_stream_name(ty);
    let d = "decoder:"@ + spec_stream_name(ty);
    assert(e.subrange(0, 8) =~= "encoder:"@);
    assert(d.subrange(0, 8) =~= "decoder:"@);
    if ty == PipeableStreamType::Video {
        assert(e.subrange(8, 13) =~= "video"@);
        assert(d.subrange(8, 13) =~= "video"@);
    } else {
        assert(e.subrange(8, 13) =~= "audio"@);
        assert(d.subrange(8, 13) =~= "audio"@);
    }
    assert(e[0] != "videoconvert"@[0]);
    assert(e[0] != "audioconvert"@[0]);
    assert(e[0] != "subparse"@[0]);
}

proof fn lemma_plain_names()
    ensures
        !spec_is_aliased("tee"@),
        !spec_is_linker("tee"@),
        !spec_is_aliased("queue"@),
{
    reveal_strlit("tee");
    reveal_strlit("queue");
    reveal_strlit("videoconvert");
    reveal_strlit("audioconvert");
    reveal_strlit("subparse");
    lemma_first_char_not_alias("tee"@);
    lemma_first_char_not_alias("queue"@);
}

proof fn lemma_insert_expandable(ns: Seq<(Seq<char>, NodeV)>, n: NodeV)
    requires
        keys_unique(ns),
        spec_aliases_expandable(ns),
        spec_is_aliased(n.node_type) ==> spec_alias_expandable(n.node_type),
    ensures
        keys_unique(spec_add_node(ns, n)),
        spec_aliases_expandable(spec_add_node(ns, n)),
        spec_names_match(ns) ==> spec_names_match(spec_add_node(ns, n)),
{
    lemma_assoc_insert_unique(ns, n.id, n);
    lemma_assoc_insert_entries(ns, n.id, n);
    let r = spec_add_node(ns, n);
    assert forall|j: int| 0 <= j < r.len() && spec_is_aliased((#[trigger] r[j]).1.node_type) implies
        spec_alias_expandable(r[j].1.node_type) by {
        if r[j] != (n.id, n) {
            let k = choose|k: int| 0 <= k < ns.len() && ns[k] == r[j];
        }
    }
    if spec_names_match(ns) {
        assert forall|j: int| 0 <= j < r.len() implies (#[trigger] r[j]).0 == r[j].1.id by {
            if r[j] != (n.id, n) {
                let k = choose|k: int| 0 <= k < ns.len() && ns[k] == r[j];
            }
        }
    }
}

proof fn lemma_phase1_inv(p: PipelineV, cs: Seq<(EndpointV, nat)>, gp: Seq<Seq<Seq<char>>>)
    requires
        keys_unique(p.nodes),
        spec_aliases_expandable(p.nodes),
        forall|j: int| 0 <= j < cs.len() && (#[trigger] cs[j]).1 > 1 ==> has_key(p.nodes, cs[j].0.id),
        forall|j: int| 0 <= j < cs.len() && (#[trigger] cs[j]).1 > 1 && has_key(p.nodes, cs[j].0.id)
            ==> assoc_get(p.nodes, cs[j].0.id).node_type != "subparse"@,
    ensures
        keys_unique(spec_split_phase1(p, cs, gp).0.nodes),
        spec_aliases_expandable(spec_split_phase1(p, cs, gp).0.nodes),
        spec_names_match(p.nodes) ==> spec_names_match(spec_split_phase1(p, cs, gp).0.nodes),
        forall|j: int| 0 <= j < spec_split_phase1(p, cs, gp).1.len() ==>
            (#[trigger] spec_split_phase1(p, cs, gp).1[j]).1.2 != PipeableStreamType::Subtitles,
        forall|k: Seq<char>| #[trigger] has_key(spec_split_phase1(p, cs, gp).0.nodes, k) ==>
            (has_key(p.nodes, k) && assoc_get(spec_split_phase1(p, cs, gp).0.nodes, k) == assoc_get(p.nodes, k))
            || !spec_is_linker(assoc_get(spec_split_phase1(p, cs, gp).0.nodes, k).node_type),
    decreases cs.len(),
{
    if cs.len() > 0 {
        let d = cs.drop_last();
        assert forall|j: int| 0 <= j < d.len() && (#[trigger] d[j]).1 > 1 && has_key(p.nodes, d[j].0.id)
            implies assoc_get(p.nodes, d[j].0.id).node_type != "subparse"@ by {
            assert(d[j] == cs[j]);
        }
        assert forall|j: int| 0 <= j < d.len() && (#[trigger] d[j]).1 > 1 implies has_key(p.nodes, d[j].0.id) by {
            assert(d[j] == cs[j]);
        }
        lemma_phase1_inv(p, d, gp.drop_last());
        let (q, io) = spec_split_phase1(p, d, gp.drop_last());
        let (e, num) = cs.last();
        let pair = gp.last();
        if num > 1 && spec_is_linker(assoc_get(q.nodes, e.id).node_type) {
            let t = assoc_get(q.nodes, e.id).node_type;
            let ty = spec_linker_type(t);
            assert(cs[cs.len() - 1] == cs.last());
            lemma_phase1_keeps_keys(p, d, gp.drop_last(), e.id);
            assert(t != "subparse"@);
            reveal_strlit("subparse");
            reveal_strlit("videoconvert");
            reveal_strlit("audioconvert");
            assert(ty != PipeableStreamType::Subtitles);
            lemma_alias_names_expandable(ty);
            lemma_plain_names();
            let enc = spec_encoder_node(ty, pair[0]);
            let tee = spec_new_node("tee"@, pair[1]);
            let n1 = spec_add_node(q.nodes, enc);
            lemma_insert_expandable(q.nodes, enc);
            lemma_insert_expandable(n1, tee);
            let (r, io2) = spec_split_phase1(p, cs, gp);
            assert forall|j: int| 0 <= j < io2.len() implies (#[trigger] io2[j]).1.2 != PipeableStreamType::Subtitles by {
                lemma_assoc_insert_entries(io, e, (pair[1], pair[0], ty));
                if io2[j] != (e, (pair[1], pair[0], ty)) {
                    let k = choose|k: int| 0 <= k < io.len() && io[k] == io2[j];
                }
            }
            assert forall|k: Seq<char>| #[trigger] has_key(r.nodes, k) implies
                (has_key(p.nodes, k) && assoc_get(r.nodes, k) == assoc_get(p.nodes, k))
                || !spec_is_linker(assoc_get(r.nodes, k).node_type) by {
                crate::assoc::lemma_assoc_insert_get(n1, tee.id, tee, k);
                crate::assoc::lemma_assoc_insert_get(q.nodes, enc.id, enc, k);
                if k != tee.id && k != enc.id {
                    assert(has_key(q.nodes, k));
                }
            }
        }
    }
}


proof fn lemma_phase2_inv(ls: Seq<LinkV>, io: SplitMap, gq: Seq<Seq<Seq<char>>>)
    requires
        forall|j: int| 0 <= j < io.len() ==> (#[trigger] io[j]).1.2 != PipeableStreamType::Subtitles,
    ensures
        keys_unique(spec_split_phase2(ls, io, gq).1.nodes),
        spec_names_match(spec_split_phase2(ls, io, gq).1.nodes),
        spec_aliases_expandable(spec_split_phase2(ls, io, gq).1.nodes),
    decreases ls.len(),
{
    if ls.len() > 0 {
        lemma_phase2_inv(ls.drop_last(), io, gq.drop_last());
        let (nl, x) = spec_split_phase2(ls.drop_last(), io, gq.drop_last());
        let l = ls.last();
        let pair = gq.last();
        if has_key(io, l.from) {
            lemma_key_index(io, l.from);
            let (tee, enc, ty) = assoc_get(io, l.from);
            lemma_alias_names_expandable(ty);
            lemma_plain_names();
            let queue = spec_with_props("queue"@, pair[0], spec_queue_props());
            let dec = spec_decoder_node(ty, pair[1]);
            lemma_insert_expandable(x.nodes, queue);
            lemma_insert_expandable(spec_add_node(x.nodes, queue), dec);
        }
    } else {
        let x = spec_split_phase2(ls, io, gq).1;
        assert(x.nodes.len() == 0);
    }
}

/// Splitting keeps each name once and only expandable aliases, when no split
/// subtitle stream is involved.
proof fn lemma_handle_splits_inv(p: PipelineV, gp: Seq<Seq<Seq<char>>>, gq: Seq<Seq<Seq<char>>>)
    requires
        spec_rewritable(p),
    ensures
        keys_unique(spec_handle_splits(p, gp, gq).nodes),
        spec_aliases_expandable(spec_handle_splits(p, gp, gq).nodes),
        spec_names_match(p.nodes) ==> spec_names_match(spec_handle_splits(p, gp, gq).nodes),
{
    let cs = spec_counts(p.links);
    lemma_phase1_inv(p, cs, gp);
    let (p1, io) = spec_split_phase1(p, cs, gp);
    lemma_phase2_inv(p1.links, io, gq);
    let (nl, extra) = spec_split_phase2(p1.links, io, gq);
    lemma_add_nodes_wf(p1.nodes, extra.nodes);
    let r = spec_add_nodes(p1.nodes, extra.nodes);
    assert forall|j: int| 0 <= j < r.len() && spec_is_aliased((#[trigger] r[j]).1.node_type) implies
        spec_alias_expandable(r[j].1.node_type) by {
        if !p1.nodes.contains(r[j]) {
            let k = choose|k: int| 0 <= k < extra.nodes.len() && r[j] == (extra.nodes[k].1.id, extra.nodes[k].1);
        } else {
            let k = choose|k: int| 0 <= k < p1.nodes.len() && p1.nodes[k] == r[j];
        }
    }
    if spec_names_match(p.nodes) {
        assert forall|j: int| 0 <= j < r.len() implies (#[trigger] r[j]).0 == r[j].1.id by {
            if p1.nodes.contains(r[j]) {
                let k = choose|k: int| 0 <= k < p1.nodes.len() && p1.nodes[k] == r[j];
            }
        }
    }
}

proof fn lemma_pruned_keeps(a: PipelineV, b: PipelineV)
    requires
        spec_pruned(a, b),
    ensures
        spec_aliases_expandable(a.nodes) ==> spec_aliases_expandable(b.nodes),
        spec_names_match(a.nodes) ==> spec_names_match(b.nodes),
{
    assert forall|j: int| 0 <= j < b.nodes.len() implies a.nodes.contains(#[trigger] b.nodes[j]) by {}
    if spec_aliases_expandable(a.nodes) {
        assert forall|j: int| 0 <= j < b.nodes.len() && spec_is_aliased((#[trigger] b.nodes[j]).1.node_type) implies
            spec_alias_expandable(b.nodes[j].1.node_type) by {
            let k = choose|k: int| 0 <= k < a.nodes.len() && a.nodes[k] == b.nodes[j];
        }
    }
    if spec_names_match(a.nodes) {
        assert forall|j: int| 0 <= j < b.nodes.len() implies (#[trigger] b.nodes[j]).0 == b.nodes[j].1.id by {
            let k = choose|k: int| 0 <= k < a.nodes.len() && a.nodes[k] == b.nodes[j];
        }
    }
}

proof fn lemma_expand_unique(p: PipelineV, ns: Seq<(Seq<char>, NodeV)>, gids: Seq<Seq<Seq<char>>>)
    requires
        keys_unique(p.nodes),
    ensures
        keys_unique(spec_expand_aliases(p, ns, gids).0.nodes),
    decreases ns.len(),
{
    if ns.len() > 0 {
        lemma_expand_unique(p, ns.drop_last(), gids.drop_last());
        let (q, m) = spec_expand_aliases(p, ns.drop_last(), gids.drop_last());
        let n = ns.last().1;
        if spec_is_aliased(n.node_type) {
            let (x, i, o) = spec_alias_expansion(n.node_type, gids.last());
            lemma_add_nodes_wf(q.nodes, x.nodes);
        }
    }
}

/// After the rewrites of `to_gstreamer_pipeline`, no element is a dead end,
/// and, when each element of the input was held under its own name, no
/// encoder or decoder alias is left.
pub proof fn law_rewritten_pipeline(p: PipelineV, r: PipelineV, gp: Seq<Seq<Seq<char>>>, gq: Seq<Seq<Seq<char>>>,
    s2: PipelineV, gids: Seq<Seq<Seq<char>>>)
    requires
        spec_rewritable(p),
        spec_rewritten(p, r, gp, gq, s2, gids),
    ensures
        spec_no_dead_ends(r),
        spec_names_match(p.nodes) ==> forall|j: int| 0 <= j < r.nodes.len() ==> !spec_is_aliased((#[trigger] r.nodes[j]).1.node_type),
{
    if spec_names_match(p.nodes) {
        lemma_handle_splits_inv(p, gp, gq);
        lemma_pruned_keeps(spec_handle_splits(p, gp, gq), s2);
        law_convert_aliases_leaves_no_alias(s2, gids);
        let s3 = spec_convert_aliases(s2, gids);
        assert forall|j: int| 0 <= j < r.nodes.len() implies !spec_is_aliased((#[trigger] r.nodes[j]).1.node_type) by {
            let k = choose|k: int| 0 <= k < s3.nodes.len() && s3.nodes[k] == r.nodes[j];
        }
    }
}

impl AbstractPipeline {
    /// The optimisation pass. It removes nothing yet (redundant encode/decode
    /// pairs stay): the pipeline is left as it is.
    fn optimise(&mut self)
        ensures
            final(self)@ == old(self)@,
    {
    }

    /// Rewrites the pipeline into one GStreamer can parse and returns its text:
    /// split streams are teed through an encoder and decoded per consumer,
    /// dead ends are removed, aliases are expanded, and dead ends are removed
    /// again. The text has a line `\n <link>` per link, then a line
    /// `\n <element>` per element.
    /// Every element the rewrites add is named by a fresh UUID.
    pub fn to_gstreamer_pipeline(&mut self) -> (r: String)
        requires
            spec_rewritable(old(self)@),
        ensures
            exists|gp: Seq<Seq<Seq<char>>>, gq: Seq<Seq<Seq<char>>>, s2: PipelineV, gids: Seq<Seq<Seq<char>>>| {
                &&& spec_rewritten(old(self)@, final(self)@, gp, gq, s2, gids)
                &&& spec_pairs(gp, spec_counts(old(self)@.links).len())
                &&& spec_pairs(gq, gq.len())
                &&& spec_fresh_triples(gids, s2.nodes.len())
            },
            r@ == spec_render_pipeline(final(self)@),
    {
        let ghost p = self@;
        let g1 = self.handle_splits();
        proof {
            lemma_handle_splits_inv(p, g1@.0, g1@.1);
        }
        let ghost s1 = self@;
        self.remove_dangling();
        let ghost s2 = self@;
        proof {
            lemma_pruned_keeps(s1, s2);
        }
        self.optimise();
        let g2 = self.convert_aliases();
        let ghost s3 = self@;
        proof {
            let (q, m) = spec_expand_aliases(s2, s2.nodes, g2@);
            lemma_expand_unique(s2, s2.nodes, g2@);
            lemma_remove_keys(q.nodes, m);
        }
        self.remove_dangling();
        assert(spec_rewritten(p, self@, g1@.0, g1@.1, s2, g2@));
        let mut s = String::new();
        let mut i: usize = 0;
        while i < self.links.len()
            invariant
                i <= self.links.len(),
                s@ == spec_render_links(self@.links.take(i as int)),
            decreases self.links.len() - i,
        {
            assert(self@.links.take(i + 1).drop_last() =~= self@.links.take(i as int));
            let t = self.links[i].to_gstreamer_pipeline();
            s.append("\n ");
            s.append(t.as_str());
            i = i + 1;
        }
        assert(self@.links.take(self.links.len() as int) =~= self@.links);
        let mut j: usize = 0;
        while j < self.nodes.len()
            invariant
                j <= self.nodes.len(),
                s@ == spec_render_links(self@.links) + spec_render_nodes(self@.nodes.take(j as int)),
            decreases self.nodes.len() - j,
        {
            assert(self@.nodes.take(j + 1).drop_last() =~= self@.nodes.take(j as int));
            let t = self.nodes[j].1.to_gstreamer_pipeline();
            s.append("\n ");
            s.append(t.as_str());
            j = j + 1;
        }
        assert(self@.nodes.take(self.nodes.len() as int) =~= self@.nodes);
        s
    }
}

// ---------------------------------------------------------------------------
// The inputs of the source clips

/// The fresh names that the inputs of a source clip take: its file source,
/// its demuxer, and a decoder for each of its video, audio and subtitle
/// streams, in order.
pub struct InputNames {
    pub source: Seq<char>,
    pub demux: Seq<char>,
    pub video: Seq<Seq<char>>,
    pub audio: Seq<Seq<char>>,
    pub subtitles: Seq<Seq<char>>,
}

/// The name of the converter of stream `i` of the given kind of source clip
/// `id`: `source-clip-<id>-<kind>-<i>`.
pub open spec fn spec_converter_name(id: ID, kind: PipeableStreamType, i: nat) -> Seq<char> {
    "source-clip-"@ + uuid_hyphenated(id) + "-"@ + spec_stream_name(kind) + "-"@ + nat_decimal(i)
}

/// The decoding of stream `i` of the given kind from demuxer `q`: a link from
/// the demuxer's pad `<kind>_<i>` to a decoder alias named `dn`, a link from
/// the decoder to the kind's converter, and the two elements.
pub open spec fn spec_stream_input(p: PipelineV, q: Seq<char>, id: ID, kind: PipeableStreamType, i: nat, dn: Seq<char>) -> PipelineV {
    let conv = spec_new_node(spec_stream_linker(kind), spec_converter_name(id, kind, i));
    let dec = spec_new_node("decoder:"@ + spec_stream_name(kind), dn);
    PipelineV {
        nodes: spec_add_node(spec_add_node(p.nodes, dec), conv),
        links: p.links
            .push(LinkV { from: EndpointV { id: q, property: Some(spec_stream_name(kind) + "_"@ + nat_decimal(i)) }, to: spec_plain_endpoint(dn) })
            .push(spec_plain_link(dn, conv.id)),
    }
}

/// The decoding of streams 0 to `n - 1` of the given kind, decoder `i` named
/// `names[i]`.
pub open spec fn spec_stream_inputs(p: PipelineV, q: Seq<char>, id: ID, kind: PipeableStreamType, n: nat, names: Seq<Seq<char>>) -> PipelineV
    decreases n,
{
    if n == 0 {
        p
    } else {
        spec_stream_input(spec_stream_inputs(p, q, id, kind, (n - 1) as nat, names), q, id, kind, (n - 1) as nat, names[n - 1])
    }
}

/// The file source of a clip: it reads the clip's file, its path with
/// forward slashes, in double quotes.
pub open spec fn spec_file_source(name: Seq<char>, c: SourceClipV) -> NodeV {
    NodeV {
        id: name,
        node_type: "filesrc"@,
        properties: seq![("location"@, "\""@ + slashes_forward(c.file_location->0) + "\""@)],
    }
}

/// The inputs of source clip `id`: a link from its file source to its
/// demuxer, the decoding of each of its streams (video, then audio, then
/// subtitles) when its metadata is known, then the file source and the
/// demuxer.
pub open spec fn spec_clip_inputs(p: PipelineV, id: ID, c: SourceClipV, nm: InputNames) -> PipelineV {
    let p1 = PipelineV { links: p.links.push(spec_plain_link(nm.source, nm.demux)), ..p };
    let p2 = match c.info {
        Some(info) => spec_stream_inputs(
            spec_stream_inputs(
                spec_stream_inputs(p1, nm.demux, id, PipeableStreamType::Video, info.video_streams.len(), nm.video),
                nm.demux, id, PipeableStreamType::Audio, info.audio_streams.len(), nm.audio),
            nm.demux, id, PipeableStreamType::Subtitles, info.subtitle_streams.len(), nm.subtitles),
        None => p1,
    };
    PipelineV {
        nodes: spec_add_node(spec_add_node(p2.nodes, spec_file_source(nm.source, c)), spec_new_node("qtdemux"@, nm.demux)),
        ..p2
    }
}

/// The inputs of the source clips `cs`, in order, clip `i` named by `nms[i]`.
pub open spec fn spec_source_inputs(p: PipelineV, cs: Seq<(ID, SourceClipV)>, nms: Seq<InputNames>) -> PipelineV
    decreases cs.len(),
{
    if cs.len() == 0 {
        p
    } else {
        spec_clip_inputs(spec_source_inputs(p, cs.drop_last(), nms), cs.last().0, cs.last().1, nms[cs.len() - 1])
    }
}

/// Each name is the text of a UUID.
pub open spec fn spec_all_uuids(ns: Seq<Seq<char>>) -> bool {
    forall|i: int| 0 <= i < ns.len() ==> is_uuid_text(#[trigger] ns[i])
}

/// The names of a clip's inputs are fresh UUIDs, one decoder per stream.
pub open spec fn spec_input_names_fit(nm: InputNames, c: SourceClipV) -> bool {
    &&& is_uuid_text(nm.source)
    &&& is_uuid_text(nm.demux)
    &&& spec_all_uuids(nm.video) && spec_all_uuids(nm.audio) && spec_all_uuids(nm.subtitles)
    &&& match c.info {
        Some(info) => nm.video.len() == info.video_streams.len() && nm.audio.len() == info.audio_streams.len()
            && nm.subtitles.len() == info.subtitle_streams.len(),
        None => nm.video.len() == 0 && nm.audio.len() == 0 && nm.subtitles.len() == 0,
    }
}

/// Adds the decoding of streams 0 to `n - 1` of the given kind from demuxer
/// `demux`, each decoder with a fresh name; gives the names.
fn add_stream_inputs(output: &mut AbstractPipeline, demux: &String, id: ID, kind: &PipeableStreamType, n: usize)
    -> (names: Ghost<Seq<Seq<char>>>)
    ensures
        names@.len() == n,
        spec_all_uuids(names@),
        final(output)@ == spec_stream_inputs(old(output)@, demux@, id, *kind, n as nat, names@),
{
    let ghost start = output@;
    let ghost mut names: Seq<Seq<char>> = Seq::empty();
    let mut i: usize = 0;
    while i < n
        invariant
            i <= n,
            names.len() == i,
            spec_all_uuids(names),
            output@ == spec_stream_inputs(start, demux@, id, *kind, i as nat, names),
        decreases n - i,
    {
        let ghost before = output@;
        let dec = AbstractNode::new_decoder(kind);
        let number = u64_to_string(i as u64);
        let kind_name = kind.to_string();
        let head = cat3("source-clip-", id_to_string(id).as_str(), "-");
        let mid = cat3(head.as_str(), kind_name.as_str(), "-");
        let conv_name = cat(mid.as_str(), number.as_str());
        let linker = kind.stream_linker();
        let conv = AbstractNode::new(linker.as_str(), Some(conv_name));
        let pad = cat3(kind_name.as_str(), "_", number.as_str());
        output.link_abstract(AbstractLink {
            from: AbstractLinkEndpoint::new_with_property(demux.clone(), pad),
            to: AbstractLinkEndpoint::new(dec.id.clone()),
        });
        output.link(&dec, &conv);
        let ghost dn = dec@.id;
        proof {
            assert(dec@ == spec_new_node("decoder:"@ + spec_stream_name(*kind), dn));
            assert(conv@ == spec_new_node(spec_stream_linker(*kind), spec_converter_name(id, *kind, i as nat)));
        }
        output.add_node(dec);
        output.add_node(conv);
        proof {
            let old_names = names;
            names = names.push(dn);
            assert(names.drop_last() =~= old_names);
            assert(names[i as int] == dn);
            assert(spec_stream_inputs(start, demux@, id, *kind, i as nat, names)
                == spec_stream_inputs(start, demux@, id, *kind, i as nat, old_names)) by {
                lemma_stream_inputs_prefix(start, demux@, id, *kind, i as nat, old_names, names);
            }
            assert(output@ == spec_stream_input(before, demux@, id, *kind, i as nat, dn));
        }
        i = i + 1;
    }
    Ghost(names)
}

/// Only the first `n` names matter.
proof fn lemma_stream_inputs_prefix(p: PipelineV, q: Seq<char>, id: ID, kind: PipeableStreamType, n: nat, a: Seq<Seq<char>>, b: Seq<Seq<char>>)
    requires
        n <= a.len(),
        n <= b.len(),
        forall|j: int| 0 <= j < n ==> a[j] == b[j],
    ensures
        spec_stream_inputs(p, q, id, kind, n, a) == spec_stream_inputs(p, q, id, kind, n, b),
    decreases n,
{
    if n > 0 {
        lemma_stream_inputs_prefix(p, q, id, kind, (n - 1) as nat, a, b);
    }
}

/// Only the first `cs.len()` name sets matter.
proof fn lemma_source_inputs_prefix(p: PipelineV, cs: Seq<(ID, SourceClipV)>, a: Seq<InputNames>, b: Seq<InputNames>)
    requires
        cs.len() <= a.len(),
        cs.len() <= b.len(),
        forall|j: int| 0 <= j < cs.len() ==> a[j] == b[j],
    ensures
        spec_source_inputs(p, cs, a) == spec_source_inputs(p, cs, b),
    decreases cs.len(),
{
    if cs.len() > 0 {
        lemma_source_inputs_prefix(p, cs.drop_last(), a, b);
    }
}

/// Adds to `output` the inputs of each source clip of `clips`, in order: a
/// file source reading the clip's file, linked to a demuxer, whose pad for
/// each stream feeds a decoder alias and then the stream kind's converter
/// (named `source-clip-<id>-<kind>-<i>`); the sources, demuxers and decoders
/// get fresh names. A clip without a file location is outside `requires`.
pub fn add_source_clip_inputs(output: &mut AbstractPipeline, clips: &ClipStore)
    requires
        forall|i: int| 0 <= i < clips.source@.len() ==> (#[trigger] clips.source@[i]).1.file_location is Some,
    ensures
        exists|nms: Seq<InputNames>| {
            &&& nms.len() == clips.source@.len()
            &&& forall|i: int| 0 <= i < nms.len() ==> spec_input_names_fit(#[trigger] nms[i], id_map_view(clips.source@)[i].1)
            &&& final(output)@ == spec_source_inputs(old(output)@, id_map_view(clips.source@), nms)
        },
{
    let ghost start = output@;
    let ghost cs = id_map_view(clips.source@);
    let ghost mut nms: Seq<InputNames> = Seq::empty();
    let mut i: usize = 0;
    while i < clips.source.len()
        invariant
            i <= clips.source@.len(),
            cs == id_map_view(clips.source@),
            forall|k: int| 0 <= k < clips.source@.len() ==> (#[trigger] clips.source@[k]).1.file_location is Some,
            nms.len() == i,
            forall|k: int| 0 <= k < i ==> spec_input_names_fit(#[trigger] nms[k], cs[k].1),
            output@ == spec_source_inputs(start, cs.take(i as int), nms),
        decreases clips.source@.len() - i,
    {
        let ghost before = output@;
        let id = clips.source[i].0;
        let c = &clips.source[i].1;
        assert(cs[i as int] == (id, c@));
        let file = match &c.file_location {
            Some(f) => f,
            None => return vstd::pervasive::unreached(),
        };
        let quoted = cat3("\"", replace_backslashes(file.as_str()).as_str(), "\"");
        let mut props: Vec<(String, String)> = Vec::new();
        props.push((owned("location"), quoted));
        assert(c@.file_location == Some(file@));
        assert(props_view(props@) =~= seq![("location"@, "\""@ + slashes_forward(c@.file_location->0) + "\""@)]);
        let src = AbstractNode::new_with_props("filesrc", None, props);
        let demux = AbstractNode::new("qtdemux", None);
        output.link(&src, &demux);
        let ghost p1 = output@;
        let ghost mut vn: Seq<Seq<char>> = Seq::empty();
        let ghost mut an: Seq<Seq<char>> = Seq::empty();
        let ghost mut sn: Seq<Seq<char>> = Seq::empty();
        match &c.info {
            Some(info) => {
                let g1 = add_stream_inputs(output, &demux.id, id, &PipeableStreamType::Video, info.video_streams.len());
                let g2 = add_stream_inputs(output, &demux.id, id, &PipeableStreamType::Audio, info.audio_streams.len());
                let g3 = add_stream_inputs(output, &demux.id, id, &PipeableStreamType::Subtitles, info.subtitle_streams.len());
                proof {
                    vn = g1@;
                    an = g2@;
                    sn = g3@;
                }
            },
            None => {},
        }
        let ghost nm = InputNames { source: src@.id, demux: demux@.id, video: vn, audio: an, subtitles: sn };
        proof {
            assert(src@ == spec_file_source(nm.source, c@));
            assert(demux@ == spec_new_node("qtdemux"@, nm.demux));
        }
        output.add_node(src);
        output.add_node(demux);
        proof {
            assert(output@ == spec_clip_inputs(before, id, c@, nm));
            let old_nms = nms;
            nms = nms.push(nm);
            assert(cs.take(i + 1).drop_last() =~= cs.take(i as int));
            assert(cs.take(i + 1).last() == cs[i as int]);
            lemma_source_inputs_prefix(start, cs.take(i as int), old_nms, nms);
        }
        i = i + 1;
    }
    assert(cs.take(i as int) =~= cs);
}

} // verus!
