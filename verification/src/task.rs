//! Edits to a project, applied to the store, and the network work each one
//! leaves for the client to send to the server.
use vstd::prelude::*;
use crate::ID;
use crate::assoc::{has_key, assoc_get, assoc_insert, assoc_remove, keys_unique, id_map_view, id_index, id_insert, id_remove,
    lemma_assoc_insert_unique, lemma_assoc_remove_unique};
use crate::clip::{ClipIdentifier, ClipType, CompositedClip, SourceClip, SourceClipV};
use crate::global::uniq_id;
use crate::node::{Node, NodeValue, Position, PropertyValue, PropertyValueV};
use crate::pipeline::{Link, spec_endpoint_id};
use crate::store::{Store, StoreV, spec_store_wf};
use crate::text::{str_eq, owned};

verus! {

/// The new value of a clip, as an update carries it: a source clip or a
/// composited clip, or a value that is neither (held as its JSON text).
#[derive(Debug)]
pub enum ClipData {
    Source(SourceClip),
    Composited(CompositedClip),
    Malformed(String),
}

/// An edit to a project.
#[derive(Debug)]
pub enum Task {
    UpdateNode(ID, Node),
    AddNode(Node),
    AddLink(Link),
    DeleteLinks(ID, Option<String>),
    DeleteNode(ID),
    UpdateClip(ID, ClipType, ClipData),
    CreateSourceClip(SourceClip),
    CreateCompositedClip(CompositedClip),
}

/// Work for the network: what the server must be told of an edit.
#[derive(Debug)]
pub enum NetworkTask {
    GetSourceClipID(ID),
    GetCompositedClipID(ID),
    GetNodeID(ID),
    UpdateNode(ID),
    AddLink(Link),
    DeleteLinks(ID, Option<String>),
    DeleteNode(ID),
    UpdateClip(ID, ClipType),
}

/// The links that do not end at the endpoint with id `ep`.
pub open spec fn spec_links_not_into(ls: Seq<Link>, ep: Seq<char>) -> Seq<Link>
    decreases ls.len(),
{
    if ls.len() == 0 {
        ls
    } else if spec_endpoint_id(ls.last().to) != ep {
        spec_links_not_into(ls.drop_last(), ep).push(ls.last())
    } else {
        spec_links_not_into(ls.drop_last(), ep)
    }
}

/// Link `l` is attached to node `id`: at either end, and, with property `p`
/// given, at that property of the node.
pub open spec fn spec_link_attached(l: Link, id: ID, property: Option<Seq<char>>) -> bool {
    match property {
        None => l.to.node_id == id || l.from.node_id == id,
        Some(p) => (l.to.node_id == id && l.to.property@ == p) || (l.from.node_id == id && l.from.property@ == p),
    }
}

/// The links kept by a deletion of the links of node `id`: with no property
/// given, those at neither end of the node; with property `p` given, those
/// not attached to `p` of the node, at either end.
pub open spec fn spec_links_kept(ls: Seq<Link>, id: ID, property: Option<Seq<char>>) -> Seq<Link>
    decreases ls.len(),
{
    if ls.len() == 0 {
        ls
    } else {
        let rest = spec_links_kept(ls.drop_last(), id, property);
        let l = ls.last();
        if !spec_link_attached(l, id, property) {
            rest.push(l)
        } else {
            rest
        }
    }
}

/// The links that touch neither end at node `id`.
pub open spec fn spec_links_not_at(ls: Seq<Link>, id: ID) -> Seq<Link>
    decreases ls.len(),
{
    if ls.len() == 0 {
        ls
    } else if ls.last().to.node_id != id && ls.last().from.node_id != id {
        spec_links_not_at(ls.drop_last(), id).push(ls.last())
    } else {
        spec_links_not_at(ls.drop_last(), id)
    }
}

/// The output node made for a new composited clip: at the origin, with the
/// given id and group, and its `clip` property naming the clip.
pub open spec fn spec_composited_output_node(clip_id: ID, node_id: ID, group: ID) -> NodeValue {
    NodeValue {
        position: Position { x: 0, y: 0 },
        id: node_id,
        node_type: "output"@,
        properties: seq![("clip"@, PropertyValueV::Clip(ClipIdentifier { id: clip_id, clip_type: ClipType::Composited }))],
        group,
    }
}

pub open spec fn opt_string_view(s: Option<String>) -> Option<Seq<char>> {
    match s {
        Some(x) => Some(x@),
        None => None,
    }
}

/// One edit applied to a project, with `fresh` the id and group of the output
/// node that a new composited clip gets: the project after it, and the
/// network work it leaves, if any.
pub open spec fn spec_apply_task(s: StoreV, t: Task, fresh: (ID, ID)) -> (StoreV, Option<NetworkTask>) {
    match t {
        Task::UpdateNode(id, node) => if has_key(s.nodes, id) {
            (StoreV { nodes: assoc_insert(s.nodes, id, node@), ..s }, Some(NetworkTask::UpdateNode(id)))
        } else {
            (s, None)
        },
        Task::AddNode(node) => (StoreV { nodes: assoc_insert(s.nodes, node.id, node@), ..s }, Some(NetworkTask::GetNodeID(node.id))),
        Task::AddLink(link) => (
            StoreV { links: spec_links_not_into(s.links, spec_endpoint_id(link.to)).push(link), ..s },
            Some(NetworkTask::AddLink(link)),
        ),
        Task::DeleteLinks(id, property) => (
            StoreV { links: spec_links_kept(s.links, id, opt_string_view(property)), ..s },
            Some(NetworkTask::DeleteLinks(id, property)),
        ),
        Task::DeleteNode(id) => (
            StoreV { links: spec_links_not_at(s.links, id), nodes: assoc_remove(s.nodes, id), ..s },
            Some(NetworkTask::DeleteNode(id)),
        ),
        Task::CreateSourceClip(clip) => (
            StoreV { source: assoc_insert(s.source, clip.id, clip@), ..s },
            Some(NetworkTask::GetSourceClipID(clip.id)),
        ),
        Task::CreateCompositedClip(clip) => (
            StoreV {
                composited: assoc_insert(s.composited, clip.id, clip),
                nodes: assoc_insert(s.nodes, fresh.0, spec_composited_output_node(clip.id, fresh.0, fresh.1)),
                ..s
            },
            Some(NetworkTask::GetCompositedClipID(clip.id)),
        ),
        Task::UpdateClip(id, clip_type, data) => match (clip_type, data) {
            (ClipType::Source, ClipData::Source(c)) => if has_key(s.source, id) {
                (StoreV { source: assoc_insert(s.source, id, SourceClipV { id, ..c@ }), ..s }, Some(NetworkTask::UpdateClip(id, clip_type)))
            } else {
                (s, None)
            },
            (ClipType::Composited, ClipData::Composited(c)) => if has_key(s.composited, id) {
                (StoreV { composited: assoc_insert(s.composited, id, CompositedClip { id, ..c }), ..s }, Some(NetworkTask::UpdateClip(id, clip_type)))
            } else {
                (s, None)
            },
            _ => (s, None),
        },
    }
}

/// The edits applied in order, the `i`-th with `fresh[i]`: the project after
/// them, and the network work they leave, in order.
pub open spec fn spec_apply_tasks(s: StoreV, ts: Seq<Task>, fresh: Seq<(ID, ID)>) -> (StoreV, Seq<NetworkTask>)
    decreases ts.len(),
{
    if ts.len() == 0 {
        (s, Seq::empty())
    } else {
        let (s1, jobs) = spec_apply_tasks(s, ts.drop_last(), fresh);
        let (s2, j) = spec_apply_task(s1, ts.last(), fresh[ts.len() - 1]);
        (s2, match j {
            Some(x) => jobs.push(x),
            None => jobs,
        })
    }
}

fn links_not_into(ls: &Vec<Link>, ep: &str) -> (r: Vec<Link>)
    ensures
        r@ == spec_links_not_into(ls@, ep@),
{
    let mut r: Vec<Link> = Vec::new();
    let mut i: usize = 0;
    while i < ls.len()
        invariant
            i <= ls.len(),
            r@ == spec_links_not_into(ls@.take(i as int), ep@),
        decreases ls.len() - i,
    {
        proof {
            assert(ls@.take(i + 1).drop_last() =~= ls@.take(i as int));
            assert(ls@.take(i + 1).last() == ls@[i as int]);
        }
        let id = ls[i].to.get_id();
        if !str_eq(id.as_str(), ep) {
            r.push(ls[i].clone());
        }
        i = i + 1;
    }
    assert(ls@.take(ls.len() as int) =~= ls@);
    r
}

fn links_kept(ls: &Vec<Link>, id: ID, property: &Option<String>) -> (r: Vec<Link>)
    ensures
        r@ == spec_links_kept(ls@, id, opt_string_view(*property)),
{
    let mut r: Vec<Link> = Vec::new();
    let mut i: usize = 0;
    while i < ls.len()
        invariant
            i <= ls.len(),
            r@ == spec_links_kept(ls@.take(i as int), id, opt_string_view(*property)),
        decreases ls.len() - i,
    {
        proof {
            assert(ls@.take(i + 1).drop_last() =~= ls@.take(i as int));
            assert(ls@.take(i + 1).last() == ls@[i as int]);
        }
        let keep = match property {
            None => ls[i].to.node_id != id && ls[i].from.node_id != id,
            Some(p) => !(ls[i].to.node_id == id && str_eq(ls[i].to.property.as_str(), p.as_str()))
                && !(ls[i].from.node_id == id && str_eq(ls[i].from.property.as_str(), p.as_str())),
        };
        if keep {
            r.push(ls[i].clone());
        }
        i = i + 1;
    }
    assert(ls@.take(ls.len() as int) =~= ls@);
    r
}

fn links_not_at(ls: &Vec<Link>, id: ID) -> (r: Vec<Link>)
    ensures
        r@ == spec_links_not_at(ls@, id),
{
    let mut r: Vec<Link> = Vec::new();
    let mut i: usize = 0;
    while i < ls.len()
        invariant
            i <= ls.len(),
            r@ == spec_links_not_at(ls@.take(i as int), id),
        decreases ls.len() - i,
    {
        proof {
            assert(ls@.take(i + 1).drop_last() =~= ls@.take(i as int));
            assert(ls@.take(i + 1).last() == ls@[i as int]);
        }
        if ls[i].to.node_id != id && ls[i].from.node_id != id {
            r.push(ls[i].clone());
        }
        i = i + 1;
    }
    assert(ls@.take(ls.len() as int) =~= ls@);
    r
}

/// Each map of the project keeps each key once through an edit.
proof fn lemma_apply_task_wf(s: StoreV, t: Task, fresh: (ID, ID))
    requires
        spec_store_wf(s),
    ensures
        spec_store_wf(spec_apply_task(s, t, fresh).0),
{
    match t {
        Task::UpdateNode(id, node) => {
            lemma_assoc_insert_unique(s.nodes, id, node@);
        },
        Task::AddNode(node) => {
            lemma_assoc_insert_unique(s.nodes, node.id, node@);
        },
        Task::DeleteNode(id) => {
            lemma_assoc_remove_unique(s.nodes, id);
        },
        Task::CreateSourceClip(clip) => {
            lemma_assoc_insert_unique(s.source, clip.id, clip@);
        },
        Task::CreateCompositedClip(clip) => {
            lemma_assoc_insert_unique(s.composited, clip.id, clip);
            lemma_assoc_insert_unique(s.nodes, fresh.0, spec_composited_output_node(clip.id, fresh.0, fresh.1));
        },
        Task::UpdateClip(id, clip_type, data) => {
            match (clip_type, data) {
                (ClipType::Source, ClipData::Source(c)) => {
                    lemma_assoc_insert_unique(s.source, id, SourceClipV { id, ..c@ });
                },
                (ClipType::Composited, ClipData::Composited(c)) => {
                    lemma_assoc_insert_unique(s.composited, id, CompositedClip { id, ..c });
                },
                _ => {},
            }
        },
        _ => {},
    }
}

/// Applying edits keeps each key of each map of the project once.
pub proof fn law_apply_tasks_keeps_keys_unique(s: StoreV, ts: Seq<Task>, fresh: Seq<(ID, ID)>)
    requires
        spec_store_wf(s),
        fresh.len() >= ts.len(),
    ensures
        spec_store_wf(spec_apply_tasks(s, ts, fresh).0),
    decreases ts.len(),
{
    if ts.len() > 0 {
        law_apply_tasks_keeps_keys_unique(s, ts.drop_last(), fresh);
        lemma_apply_task_wf(spec_apply_tasks(s, ts.drop_last(), fresh).0, ts.last(), fresh[ts.len() - 1]);
    }
}

impl Task {
    /// Applies one edit to the project. A new composited clip gets an output
    /// node with id `fresh_node_id` in group `fresh_group`, whose `clip`
    /// property names it.
    pub fn apply_task(store: &mut Store, task: Task, fresh_node_id: ID, fresh_group: ID) -> (r: Option<NetworkTask>)
        ensures
            (final(store)@, r) == spec_apply_task(old(store)@, task, (fresh_node_id, fresh_group)),
    {
        let ghost s = store@;
        let ghost t = task;
        match task {
            Task::UpdateNode(id, node) => {
                match id_index(&store.nodes, id) {
                    Some(_) => {
                        id_insert(&mut store.nodes, id, node);
                        Some(NetworkTask::UpdateNode(id))
                    },
                    None => None,
                }
            },
            Task::AddNode(node) => {
                let id = node.id;
                id_insert(&mut store.nodes, id, node);
                Some(NetworkTask::GetNodeID(id))
            },
            Task::AddLink(link) => {
                let ep = link.to.get_id();
                let mut new_links = links_not_into(&store.pipeline.links, ep.as_str());
                let job = NetworkTask::AddLink(link.clone());
                new_links.push(link);
                store.pipeline.links = new_links;
                Some(job)
            },
            Task::DeleteLinks(id, property) => {
                let new_links = links_kept(&store.pipeline.links, id, &property);
                store.pipeline.links = new_links;
                Some(NetworkTask::DeleteLinks(id, property))
            },
            Task::DeleteNode(id) => {
                let new_links = links_not_at(&store.pipeline.links, id);
                store.pipeline.links = new_links;
                id_remove(&mut store.nodes, id);
                Some(NetworkTask::DeleteNode(id))
            },
            Task::CreateSourceClip(clip) => {
                let id = clip.id;
                id_insert(&mut store.clips.source, id, clip);
                Some(NetworkTask::GetSourceClipID(id))
            },
            Task::CreateCompositedClip(clip) => {
                let mut properties: Vec<(String, PropertyValue)> = Vec::new();
                properties.push((owned("clip"), PropertyValue::Clip(ClipIdentifier { id: clip.id, clip_type: ClipType::Composited })));
                let output_node = Node {
                    position: Position::new(),
                    id: fresh_node_id,
                    node_type: owned("output"),
                    properties,
                    group: fresh_group,
                };
                let id = clip.id;
                proof {
                    assert(id_map_view(store.clips.composited@) =~= store.clips.composited@);
                }
                id_insert(&mut store.clips.composited, id, clip);
                proof {
                    assert(id_map_view(store.clips.composited@) =~= store.clips.composited@);
                    assert(output_node@.properties =~= spec_composited_output_node(id, fresh_node_id, fresh_group).properties);
                }
                id_insert(&mut store.nodes, fresh_node_id, output_node);
                Some(NetworkTask::GetCompositedClipID(id))
            },
            Task::UpdateClip(id, clip_type, data) => {
                match (clip_type, data) {
                    (ClipType::Source, ClipData::Source(mut c)) => {
                        match id_index(&store.clips.source, id) {
                            Some(_) => {
                                c.id = id;
                                id_insert(&mut store.clips.source, id, c);
                                Some(NetworkTask::UpdateClip(id, clip_type))
                            },
                            None => None,
                        }
                    },
                    (ClipType::Composited, ClipData::Composited(mut c)) => {
                        proof {
                            assert(id_map_view(store.clips.composited@) =~= store.clips.composited@);
                        }
                        match id_index(&store.clips.composited, id) {
                            Some(_) => {
                                c.id = id;
                                id_insert(&mut store.clips.composited, id, c);
                                proof {
                                    assert(id_map_view(store.clips.composited@) =~= store.clips.composited@);
                                }
                                Some(NetworkTask::UpdateClip(id, clip_type))
                            },
                            None => None,
                        }
                    },
                    _ => None,
                }
            },
        }
    }

    /// Applies the edits to the project in order, and returns the network
    /// work they leave, in order. Each new composited clip gets an output node
    /// with a fresh random id, in a fresh random group.
    pub fn apply_tasks(store: &mut Store, tasks: Vec<Task>) -> (r: Vec<NetworkTask>)
        ensures
            exists|fresh: Seq<(ID, ID)>| fresh.len() == tasks@.len()
                && #[trigger] spec_apply_tasks(old(store)@, tasks@, fresh) == (final(store)@, r@),
    {
        let ghost s0 = store@;
        let ghost ts = tasks@;
        let mut network_jobs: Vec<NetworkTask> = Vec::new();
        let ghost mut fresh: Seq<(ID, ID)> = Seq::empty();
        let n0 = tasks.len();
        let mut tasks = tasks;
        let mut i: usize = 0;
        while tasks.len() > 0
            invariant
                i + tasks@.len() == ts.len(),
                ts.len() == n0,
                tasks@ =~= ts.skip(i as int),
                fresh.len() == i,
                spec_apply_tasks(s0, ts.take(i as int), fresh) == (store@, network_jobs@),
            decreases tasks@.len(),
        {
            let task = tasks.remove(0);
            proof {
                assert(task == ts[i as int]);
                assert(tasks@ =~= ts.skip(i + 1));
                assert(ts.take(i + 1).drop_last() =~= ts.take(i as int));
                assert(ts.take(i + 1).last() == ts[i as int]);
            }
            let (node_id, group) = match &task {
                Task::CreateCompositedClip(_) => (uniq_id(), uniq_id()),
                _ => (0u128, 0u128),
            };
            let ghost prev_fresh = fresh;
            proof {
                fresh = fresh.push((node_id, group));
                assert(fresh.drop_last() =~= prev_fresh);
                lemma_apply_tasks_fresh_prefix(s0, ts.take(i as int), prev_fresh, fresh);
            }
            let job = Task::apply_task(store, task, node_id, group);
            match job {
                Some(j) => network_jobs.push(j),
                None => {},
            }
            i = i + 1;
        }
        assert(ts.take(ts.len() as int) =~= ts);
        network_jobs
    }
}

/// Only the first `ts.len()` fresh pairs matter.
proof fn lemma_apply_tasks_fresh_prefix(s: StoreV, ts: Seq<Task>, f1: Seq<(ID, ID)>, f2: Seq<(ID, ID)>)
    requires
        f1.len() >= ts.len(),
        f2.len() >= ts.len(),
        forall|k: int| 0 <= k < ts.len() ==> f1[k] == f2[k],
    ensures
        spec_apply_tasks(s, ts, f1) == spec_apply_tasks(s, ts, f2),
    decreases ts.len(),
{
    if ts.len() > 0 {
        lemma_apply_tasks_fresh_prefix(s, ts.drop_last(), f1, f2);
    }
}

/// The links kept when a link into `ep` is added are links of `ls`, none
/// into `ep`; links with pairwise different inputs stay so.
proof fn lemma_links_not_into(ls: Seq<Link>, ep: Seq<char>)
    ensures
        forall|i: int| 0 <= i < spec_links_not_into(ls, ep).len() ==>
            ls.contains(#[trigger] spec_links_not_into(ls, ep)[i]) && spec_endpoint_id(spec_links_not_into(ls, ep)[i].to) != ep,
        (forall|i: int, j: int| 0 <= i < j < ls.len() ==> spec_endpoint_id(#[trigger] ls[i].to) != spec_endpoint_id(#[trigger] ls[j].to))
            ==> forall|i: int, j: int| 0 <= i < j < spec_links_not_into(ls, ep).len() ==>
                spec_endpoint_id(#[trigger] spec_links_not_into(ls, ep)[i].to) != spec_endpoint_id(#[trigger] spec_links_not_into(ls, ep)[j].to),
    decreases ls.len(),
{
    if ls.len() > 0 {
        let rest = ls.drop_last();
        lemma_links_not_into(rest, ep);
        let r = spec_links_not_into(ls, ep);
        let r0 = spec_links_not_into(rest, ep);
        assert forall|i: int| 0 <= i < r.len() implies ls.contains(#[trigger] r[i]) && spec_endpoint_id(r[i].to) != ep by {
            if i < r0.len() {
                assert(r[i] == r0[i]);
                let k = choose|k: int| 0 <= k < rest.len() && rest[k] == r0[i];
                assert(ls[k] == rest[k]);
            } else {
                assert(r[i] == ls.last());
                assert(ls[ls.len() - 1] == ls.last());
            }
        }
        if forall|i: int, j: int| 0 <= i < j < ls.len() ==> spec_endpoint_id(#[trigger] ls[i].to) != spec_endpoint_id(#[trigger] ls[j].to) {
            assert forall|i: int, j: int| 0 <= i < j < rest.len() implies spec_endpoint_id(#[trigger] rest[i].to) != spec_endpoint_id(#[trigger] rest[j].to) by {
                assert(rest[i] == ls[i] && rest[j] == ls[j]);
            }
            assert forall|i: int, j: int| 0 <= i < j < r.len() implies spec_endpoint_id(#[trigger] r[i].to) != spec_endpoint_id(#[trigger] r[j].to) by {
                if j < r0.len() {
                    assert(r[i] == r0[i] && r[j] == r0[j]);
                } else {
                    assert(r[j] == ls.last());
                    assert(r[i] == r0[i]);
                    let k = choose|k: int| 0 <= k < rest.len() && rest[k] == r0[i];
                    assert(ls[k] == rest[k]);
                    assert(ls[ls.len() - 1] == ls.last());
                }
            }
        }
    }
}

/// Adding a link leaves it, last, as the one link into its input: every
/// other link kept was there before and goes into another input. A project
/// whose inputs each have at most one link keeps that property.
pub proof fn law_add_link_single_input(s: StoreV, l: Link, fresh: (ID, ID))
    ensures
        ({
            let ls = spec_apply_task(s, Task::AddLink(l), fresh).0.links;
            &&& ls.len() >= 1 && ls.last() == l
            &&& forall|i: int| 0 <= i < ls.len() - 1 ==> s.links.contains(#[trigger] ls[i])
                && spec_endpoint_id(ls[i].to) != spec_endpoint_id(l.to)
            &&& (forall|i: int, j: int| 0 <= i < j < s.links.len() ==> spec_endpoint_id(#[trigger] s.links[i].to) != spec_endpoint_id(#[trigger] s.links[j].to))
                ==> forall|i: int, j: int| 0 <= i < j < ls.len() ==> spec_endpoint_id(#[trigger] ls[i].to) != spec_endpoint_id(#[trigger] ls[j].to)
        }),
{
    let ep = spec_endpoint_id(l.to);
    lemma_links_not_into(s.links, ep);
    let kept = spec_links_not_into(s.links, ep);
    let ls = kept.push(l);
    assert forall|i: int| 0 <= i < ls.len() - 1 implies s.links.contains(#[trigger] ls[i]) && spec_endpoint_id(ls[i].to) != ep by {
        assert(ls[i] == kept[i]);
    }
    if forall|i: int, j: int| 0 <= i < j < s.links.len() ==> spec_endpoint_id(#[trigger] s.links[i].to) != spec_endpoint_id(#[trigger] s.links[j].to) {
        assert forall|i: int, j: int| 0 <= i < j < ls.len() implies spec_endpoint_id(#[trigger] ls[i].to) != spec_endpoint_id(#[trigger] ls[j].to) by {
            assert(ls[i] == kept[i]);
            if j < kept.len() {
                assert(ls[j] == kept[j]);
            }
        }
    }
}

proof fn lemma_links_not_at(ls: Seq<Link>, id: ID)
    ensures
        forall|i: int| 0 <= i < spec_links_not_at(ls, id).len() ==>
            (#[trigger] spec_links_not_at(ls, id)[i]).to.node_id != id && spec_links_not_at(ls, id)[i].from.node_id != id,
    decreases ls.len(),
{
    if ls.len() > 0 {
        lemma_links_not_at(ls.drop_last(), id);
        let r = spec_links_not_at(ls, id);
        let r0 = spec_links_not_at(ls.drop_last(), id);
        assert forall|i: int| 0 <= i < r.len() implies (#[trigger] r[i]).to.node_id != id && r[i].from.node_id != id by {
            if i < r0.len() {
                assert(r[i] == r0[i]);
            }
        }
    }
}

/// Deleting a node removes it, and every link at either end of it.
pub proof fn law_delete_node_removes_it(s: StoreV, id: ID, fresh: (ID, ID))
    requires
        spec_store_wf(s),
    ensures
        ({
            let r = spec_apply_task(s, Task::DeleteNode(id), fresh).0;
            &&& !has_key(r.nodes, id)
            &&& forall|i: int| 0 <= i < r.links.len() ==> (#[trigger] r.links[i]).to.node_id != id && r.links[i].from.node_id != id
        }),
{
    lemma_assoc_remove_unique(s.nodes, id);
    lemma_links_not_at(s.links, id);
}

/// The network job that a task leaves, when it leaves one whatever the project.
pub open spec fn spec_task_leaves(t: Task, j: NetworkTask) -> bool {
    match t {
        Task::CreateSourceClip(c) => j == NetworkTask::GetSourceClipID(c.id),
        Task::CreateCompositedClip(c) => j == NetworkTask::GetCompositedClipID(c.id),
        Task::AddNode(n) => j == NetworkTask::GetNodeID(n.id),
        Task::AddLink(l) => j == NetworkTask::AddLink(l),
        Task::DeleteLinks(id, p) => j == NetworkTask::DeleteLinks(id, p),
        Task::DeleteNode(id) => j == NetworkTask::DeleteNode(id),
        Task::UpdateNode(id, _) => j == NetworkTask::UpdateNode(id),
        Task::UpdateClip(id, ty, _) => j == NetworkTask::UpdateClip(id, ty),
    }
}

/// A created source clip is held under its id, and the server is asked for
/// the clip's id: the job is `GetSourceClipID` of the clip.
pub proof fn law_create_source_clip_asks_for_its_id(s: StoreV, c: SourceClip, fresh: (ID, ID))
    ensures
        spec_apply_task(s, Task::CreateSourceClip(c), fresh).1 == Some(NetworkTask::GetSourceClipID(c.id)),
        has_key(spec_apply_task(s, Task::CreateSourceClip(c), fresh).0.source, c.id),
        assoc_get(spec_apply_task(s, Task::CreateSourceClip(c), fresh).0.source, c.id) == c@,
{
    crate::assoc::lemma_assoc_insert_get(s.source, c.id, c@, c.id);
}

/// A created composited clip is held under its id, an output node for it is
/// added, and the server is asked for the clip's id.
pub proof fn law_create_composited_clip_asks_for_its_id(s: StoreV, c: CompositedClip, fresh: (ID, ID))
    ensures
        spec_apply_task(s, Task::CreateCompositedClip(c), fresh).1 == Some(NetworkTask::GetCompositedClipID(c.id)),
        has_key(spec_apply_task(s, Task::CreateCompositedClip(c), fresh).0.composited, c.id),
        assoc_get(spec_apply_task(s, Task::CreateCompositedClip(c), fresh).0.composited, c.id) == c,
        has_key(spec_apply_task(s, Task::CreateCompositedClip(c), fresh).0.nodes, fresh.0),
        assoc_get(spec_apply_task(s, Task::CreateCompositedClip(c), fresh).0.nodes, fresh.0).node_type == "output"@,
{
    crate::assoc::lemma_assoc_insert_get(s.composited, c.id, c, c.id);
    crate::assoc::lemma_assoc_insert_get(s.nodes, fresh.0, spec_composited_output_node(c.id, fresh.0, fresh.1), fresh.0);
}

/// Each task leaves its own job, in the order of the tasks: an update of a
/// node or clip the project does not hold leaves none, and every other task
/// leaves exactly one, the one `spec_task_leaves` names. So a list of tasks
/// with no updates leaves one job per task, the `i`-th job for the `i`-th
/// task (a new source clip asks for its id, and so on).
pub proof fn law_apply_tasks_one_job_each(s: StoreV, ts: Seq<Task>, fresh: Seq<(ID, ID)>)
    requires
        fresh.len() >= ts.len(),
    ensures
        spec_apply_tasks(s, ts, fresh).1.len() <= ts.len(),
        forall|j: int| #![trigger spec_apply_tasks(s, ts, fresh).1[j]] 0 <= j < spec_apply_tasks(s, ts, fresh).1.len() ==>
            exists|i: int| 0 <= i < ts.len() && spec_task_leaves(#[trigger] ts[i], spec_apply_tasks(s, ts, fresh).1[j]),
        (forall|i: int| 0 <= i < ts.len() ==> !(#[trigger] ts[i] is UpdateNode) && !(ts[i] is UpdateClip)) ==> {
            &&& spec_apply_tasks(s, ts, fresh).1.len() == ts.len()
            &&& forall|i: int| 0 <= i < ts.len() ==> spec_task_leaves(#[trigger] ts[i], spec_apply_tasks(s, ts, fresh).1[i])
        },
    decreases ts.len(),
{
    if ts.len() > 0 {
        let d = ts.drop_last();
        law_apply_tasks_one_job_each(s, d, fresh);
        let (s1, jobs) = spec_apply_tasks(s, d, fresh);
        let t = ts.last();
        assert(ts[ts.len() - 1] == t);
        let (s2, j) = spec_apply_task(s1, t, fresh[ts.len() - 1]);
        let r = spec_apply_tasks(s, ts, fresh).1;
        assert(j matches Some(x) ==> spec_task_leaves(t, x));
        assert forall|k: int| #![trigger r[k]] 0 <= k < r.len() implies
            exists|i: int| 0 <= i < ts.len() && spec_task_leaves(#[trigger] ts[i], r[k]) by {
            if k < jobs.len() {
                assert(r[k] == jobs[k]);
                let i = choose|i: int| 0 <= i < d.len() && spec_task_leaves(#[trigger] d[i], jobs[k]);
                assert(d[i] == ts[i]);
            } else {
                assert(spec_task_leaves(ts[ts.len() - 1], r[k]));
            }
        }
        if forall|i: int| 0 <= i < ts.len() ==> !(#[trigger] ts[i] is UpdateNode) && !(ts[i] is UpdateClip) {
            assert forall|i: int| 0 <= i < d.len() implies !(#[trigger] d[i] is UpdateNode) && !(d[i] is UpdateClip) by {
                assert(d[i] == ts[i]);
            }
            assert(!(ts[ts.len() - 1] is UpdateNode) && !(ts[ts.len() - 1] is UpdateClip));
            assert(j is Some);
            assert forall|i: int| 0 <= i < ts.len() implies spec_task_leaves(#[trigger] ts[i], r[i]) by {
                if i < d.len() {
                    assert(d[i] == ts[i]);
                    assert(r[i] == jobs[i]);
                }
            }
        }
    }
}

/// A node added is held under its id, with its value.
pub proof fn law_add_node_then_held(s: StoreV, n: Node, fresh: (ID, ID))
    ensures
        has_key(spec_apply_task(s, Task::AddNode(n), fresh).0.nodes, n.id),
        assoc_get(spec_apply_task(s, Task::AddNode(n), fresh).0.nodes, n.id) == n@,
{
    crate::assoc::lemma_assoc_insert_get(s.nodes, n.id, n@, n.id);
}

/// Deleting the links of a node (or of one property of it) keeps exactly the
/// links that are not attached there, in their order.
pub proof fn law_delete_links_keeps_the_others(ls: Seq<Link>, id: ID, property: Option<Seq<char>>)
    ensures
        forall|l: Link| #[trigger] spec_links_kept(ls, id, property).contains(l)
            <==> ls.contains(l) && !spec_link_attached(l, id, property),
        forall|i: int| 0 <= i < spec_links_kept(ls, id, property).len()
            ==> !spec_link_attached(#[trigger] spec_links_kept(ls, id, property)[i], id, property),
    decreases ls.len(),
{
    if ls.len() > 0 {
        let d = ls.drop_last();
        let last = ls.last();
        assert(ls[ls.len() - 1] == last);
        law_delete_links_keeps_the_others(d, id, property);
        let r = spec_links_kept(ls, id, property);
        let rd = spec_links_kept(d, id, property);
        if spec_link_attached(last, id, property) {
            assert(r == rd);
        } else {
            assert(r == rd.push(last));
        }
        assert forall|l: Link| #[trigger] r.contains(l) <==> ls.contains(l) && !spec_link_attached(l, id, property) by {
            if ls.contains(l) && !spec_link_attached(l, id, property) {
                let i = choose|i: int| 0 <= i < ls.len() && ls[i] == l;
                if i < ls.len() - 1 {
                    assert(d[i] == l);
                    assert(d.contains(l));
                    assert(rd.contains(l));
                    let q = choose|q: int| 0 <= q < rd.len() && rd[q] == l;
                    assert(r[q] == l);
                } else {
                    assert(r[r.len() - 1] == l);
                }
                assert(r.contains(l));
            }
            if r.contains(l) {
                let q = choose|q: int| 0 <= q < r.len() && r[q] == l;
                if q < rd.len() {
                    assert(rd[q] == l);
                    assert(rd.contains(l));
                    assert(d.contains(l));
                    let i = choose|i: int| 0 <= i < d.len() && d[i] == l;
                    assert(ls[i] == l);
                } else {
                    assert(ls[ls.len() - 1] == l);
                }
                assert(ls.contains(l));
            }
        }
        assert forall|i: int| 0 <= i < r.len() implies !spec_link_attached(#[trigger] r[i], id, property) by {
            if i < rd.len() {
                assert(r[i] == rd[i]);
            }
        }
    }
}

} // verus!
