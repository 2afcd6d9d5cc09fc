//! What the server does with each request of a client: the change it makes
//! to the state its connections share, and what it answers. A connection
//! handler reads a request, calls the matching method of `State`, and writes
//! the answer back.
use vstd::prelude::*;
use crate::ID;
use crate::assoc::{key_index, has_key, assoc_get, assoc_insert, assoc_remove, keys_unique, id_map_view, id_index, id_insert,
    id_remove, lemma_key_index};
use crate::cache::{Cache, spec_cache_purge, spec_downstream, spec_downstream_of_all, spec_clip_importers};
use crate::clip::{ClipType, CompositedClip, SourceClip, SourceClipV, SourceClipServerStatus};
use crate::graph::index_limit;
use crate::node::Node;
use crate::pipeline::{Link, spec_get_graph};
use crate::status::VideoChunkStatus;
use crate::constants::Locations;
use crate::clip::spec_output_location;
use crate::preview::{chunks_generated, spec_chunks_generated, generating_statuses, spec_generating_statuses,
    mark_chunk_generated, segment_location, spec_segment_location};
use crate::store::{Store, StoreV};
use crate::task::{ClipData, Task, spec_apply_task, spec_apply_tasks};
use crate::networking::property_from_text;

verus! {

/// What the server knows of the preview of a composited clip: its duration
/// and codec string once found, and the state of each of its chunks.
#[derive(Debug)]
pub struct PreviewGeneration {
    pub duration: Option<u64>,
    pub codec: Option<String>,
    pub chunks: Vec<VideoChunkStatus>,
}

/// The value of a preview's record.
pub struct PreviewGenerationV {
    pub duration: Option<u64>,
    pub codec: Option<Seq<char>>,
    pub chunks: Seq<VideoChunkStatus>,
}

impl View for PreviewGeneration {
    type V = PreviewGenerationV;

    open spec fn view(&self) -> PreviewGenerationV {
        PreviewGenerationV {
            duration: self.duration,
            codec: match self.codec {
                Some(c) => Some(c@),
                None => None,
            },
            chunks: self.chunks@,
        }
    }
}

/// The state that the server's connections share: the project, the record of
/// each composited clip's preview, keyed by clip, and the render cache. (The
/// pool of rendering processes is kept beside it.)
#[derive(Debug)]
pub struct State {
    pub store: Store,
    pub video_preview_generation: Vec<(ID, PreviewGeneration)>,
    pub cache: Cache,
}

/// The value of the shared state.
pub struct StateV {
    pub store: StoreV,
    pub previews: Seq<(ID, PreviewGenerationV)>,
    pub cache: Seq<(ID, Seq<(Seq<char>, ID)>)>,
}

impl View for State {
    type V = StateV;

    open spec fn view(&self) -> StateV {
        StateV { store: self.store@, previews: id_map_view(self.video_preview_generation@), cache: self.cache@ }
    }
}

/// The project's graph can be built within the limits of its index type, and
/// its maps hold each key once.
pub open spec fn spec_state_ok(s: StateV) -> bool {
    &&& s.store.nodes.len() + s.store.links.len() < index_limit()
    &&& keys_unique(s.store.nodes)
}

/// The source clip `id` with its status set to `status`.
pub open spec fn spec_set_status(source: Seq<(ID, SourceClipV)>, id: ID, status: SourceClipServerStatus) -> Seq<(ID, SourceClipV)> {
    assoc_insert(source, id, SourceClipV { status, ..assoc_get(source, id) })
}

/// The project after the one edit `t`, a new composited clip's output node
/// taking the id and group `fresh`.
pub open spec fn spec_edit(s: StoreV, t: Task, fresh: (ID, ID)) -> StoreV {
    spec_apply_task(s, t, fresh).0
}

/// The empty record of a preview whose length is being found.
pub open spec fn spec_empty_preview() -> PreviewGenerationV {
    PreviewGenerationV { duration: None, codec: None, chunks: Seq::empty() }
}

/// Applying a list of one edit is applying the edit.
proof fn lemma_apply_one(s: StoreV, ts: Seq<Task>, fresh: Seq<(ID, ID)>)
    requires
        ts.len() == 1,
        fresh.len() == 1,
    ensures
        spec_apply_tasks(s, ts, fresh).0 == spec_edit(s, ts[0], fresh[0]),
{
    assert(ts.drop_last() =~= Seq::<Task>::empty());
    assert(spec_apply_tasks(s, ts.drop_last(), fresh) == (s, Seq::<crate::task::NetworkTask>::empty()));
    assert(ts.last() == ts[0]);
}

/// The duration and number of chunks of the preview of clip `id`, when its
/// length is known.
pub open spec fn spec_known_length(previews: Seq<(ID, PreviewGenerationV)>, id: ID) -> Option<(u64, u32)> {
    if has_key(previews, id) && assoc_get(previews, id).duration is Some {
        Some((assoc_get(previews, id).duration->0, assoc_get(previews, id).chunks.len() as u32))
    } else {
        None
    }
}

/// The chunks from `start` to `end` of the preview of clip `id` can be sent
/// at once: its length is known and each of them is generated.
pub open spec fn spec_ready_chunks(previews: Seq<(ID, PreviewGenerationV)>, id: ID, start: u32, end: u32) -> bool {
    &&& has_key(previews, id)
    &&& assoc_get(previews, id).duration is Some
    &&& spec_chunks_generated(assoc_get(previews, id).chunks, start, end)
}

/// The file of chunk `chunk` of the preview of composited clip `id`, when the
/// clip exists and the chunk is generated.
pub open spec fn spec_chunk_file(loc: Locations, s: StateV, id: ID, chunk: u32) -> Option<Seq<char>> {
    if has_key(s.previews, id) && has_key(s.store.composited, id) && chunk < assoc_get(s.previews, id).chunks.len()
        && assoc_get(s.previews, id).chunks[chunk as int] == VideoChunkStatus::Generated {
        Some(spec_segment_location(spec_output_location(loc, assoc_get(s.store.composited, id)), chunk, "mp4"@))
    } else {
        None
    }
}

/// A source clip may be uploaded when it exists and is held by its client
/// alone.
pub open spec fn spec_may_upload(s: StoreV, id: ID) -> bool {
    has_key(s.source, id) && assoc_get(s.source, id).status == SourceClipServerStatus::LocalOnly
}

impl State {
    /// Purges the cache after a change to node `id`: of the node and every
    /// node downstream of it. A node missing from a graph that can be built
    /// is outside `requires`.
    pub fn cache_node_modified(&mut self, id: &ID)
        requires
            spec_state_ok(old(self)@),
            spec_get_graph(old(self)@.store) is Ok ==> has_key(old(self)@.store.nodes, *id),
        ensures
            final(self)@.store == old(self)@.store,
            final(self)@.previews == old(self)@.previews,
            match spec_get_graph(old(self)@.store) {
                Err(_) => final(self)@.cache == old(self)@.cache,
                Ok(es) => final(self)@.cache == spec_cache_purge(old(self)@.cache, spec_downstream(old(self)@.store, es, *id)),
            },
    {
        self.cache.node_modified(id, &self.store);
    }

    /// Purges the cache after a change to a clip: of every node that imports
    /// it and every node downstream of one.
    pub fn cache_clip_modified(&mut self, id: &ID, clip_type: ClipType)
        requires
            spec_state_ok(old(self)@),
        ensures
            final(self)@.store == old(self)@.store,
            final(self)@.previews == old(self)@.previews,
            match spec_get_graph(old(self)@.store) {
                Err(_) => final(self)@.cache == old(self)@.cache,
                Ok(es) => final(self)@.cache == spec_cache_purge(old(self)@.cache,
                    spec_downstream_of_all(old(self)@.store, es,
                        spec_clip_importers(old(self)@.store, *id, clip_type, old(self)@.store.nodes.len() as int))),
            },
    {
        self.cache.clip_modified(id, clip_type, &self.store);
    }

    /// Starts the upload of source clip `id`: it is accepted, and the clip
    /// marked as uploading, only when the clip exists and is held by its
    /// client alone; otherwise nothing changes and the connection is to be
    /// closed.
    pub fn begin_upload(&mut self, id: ID) -> (r: bool)
        ensures
            r == spec_may_upload(old(self)@.store, id),
            r ==> final(self)@ == (StateV {
                store: StoreV { source: spec_set_status(old(self)@.store.source, id, SourceClipServerStatus::Uploading), ..old(self)@.store },
                ..old(self)@
            }),
            !r ==> final(self)@ == old(self)@,
    {
        match id_index(&self.store.clips.source, id) {
            Some(i) => {
                proof {
                    lemma_key_index(id_map_view(self.store.clips.source@), id);
                }
                let ok = match self.store.clips.source[i].1.status {
                    SourceClipServerStatus::LocalOnly => true,
                    _ => false,
                };
                if ok {
                    self.set_source_status(i, id, SourceClipServerStatus::Uploading);
                }
                ok
            },
            None => false,
        }
    }

    /// Ends the upload of source clip `id`: the clip is marked as uploaded. A
    /// clip that does not exist is outside `requires`.
    pub fn finish_upload(&mut self, id: ID)
        requires
            has_key(old(self)@.store.source, id),
        ensures
            final(self)@ == (StateV {
                store: StoreV { source: spec_set_status(old(self)@.store.source, id, SourceClipServerStatus::Uploaded), ..old(self)@.store },
                ..old(self)@
            }),
    {
        match id_index(&self.store.clips.source, id) {
            Some(i) => {
                proof {
                    lemma_key_index(id_map_view(self.store.clips.source@), id);
                }
                self.set_source_status(i, id, SourceClipServerStatus::Uploaded);
            },
            None => {},
        }
    }

    /// Applies one edit to the project through `Task::apply_tasks`, as the
    /// handler does for each request that changes it.
    fn edit(&mut self, task: Task) -> (fresh: Ghost<(ID, ID)>)
        ensures
            final(self)@ == (StateV { store: spec_edit(old(self)@.store, task, fresh@), ..old(self)@ }),
    {
        let ghost s0 = self.store@;
        let ghost t = task;
        let mut tasks: Vec<Task> = Vec::new();
        tasks.push(task);
        let ghost ts = tasks@;
        assert(ts =~= seq![t]);
        let _ = Task::apply_tasks(&mut self.store, tasks);
        let ghost f = choose|f: Seq<(ID, ID)>| f.len() == ts.len() && #[trigger] spec_apply_tasks(s0, ts, f) == (self.store@, spec_apply_tasks(s0, ts, f).1);
        proof {
            lemma_apply_one(s0, ts, f);
        }
        Ghost(f[0])
    }

    /// Adds a source clip a client created, under the id `id` the server
    /// chose for it, as held by the client alone (its file is not uploaded
    /// yet).
    pub fn create_source_clip(&mut self, clip: SourceClip, id: ID)
        ensures
            final(self)@ == (StateV {
                store: StoreV {
                    source: assoc_insert(old(self)@.store.source, id,
                        SourceClipV { id, status: SourceClipServerStatus::LocalOnly, ..clip@ }),
                    ..old(self)@.store
                },
                ..old(self)@
            }),
    {
        let mut clip = clip;
        clip.id = id;
        clip.status = SourceClipServerStatus::LocalOnly;
        id_insert(&mut self.store.clips.source, id, clip);
    }

    /// Adds a composited clip a client created, under the id `id` the server
    /// chose for it, with its output node (of a fresh random id and group).
    pub fn create_composited_clip(&mut self, clip: CompositedClip, id: ID)
        ensures
            exists|fresh: (ID, ID)| final(self)@ == (StateV {
                store: #[trigger] spec_edit(old(self)@.store, Task::CreateCompositedClip(CompositedClip { id, ..clip }), fresh),
                ..old(self)@
            }),
    {
        let mut clip = clip;
        clip.id = id;
        let fresh = self.edit(Task::CreateCompositedClip(clip));
    }

    /// Adds a node a client created, under the id `id` the server chose for
    /// it.
    pub fn create_node(&mut self, node: Node, id: ID)
        ensures
            final(self)@ == (StateV { store: spec_edit(old(self)@.store, Task::AddNode(Node { id, ..node }), (0, 0)), ..old(self)@ }),
    {
        let mut node = node;
        node.id = id;
        let _ = self.edit(Task::AddNode(node));
    }

    /// Replaces node `node.id` with `node`, after purging the cache of it and
    /// of every node downstream of it.
    pub fn update_node(&mut self, node: Node)
        requires
            spec_state_ok(old(self)@),
            spec_get_graph(old(self)@.store) is Ok ==> has_key(old(self)@.store.nodes, node.id),
        ensures
            final(self)@.store == spec_edit(old(self)@.store, Task::UpdateNode(node.id, node), (0, 0)),
            final(self)@.previews == old(self)@.previews,
            match spec_get_graph(old(self)@.store) {
                Err(_) => final(self)@.cache == old(self)@.cache,
                Ok(es) => final(self)@.cache == spec_cache_purge(old(self)@.cache, spec_downstream(old(self)@.store, es, node.id)),
            },
    {
        let id = node.id;
        self.cache_node_modified(&id);
        let _ = self.edit(Task::UpdateNode(id, node));
    }

    /// Adds `link`, replacing any link into its input, after purging the
    /// cache of the node it goes into and of every node downstream of it.
    pub fn add_link(&mut self, link: Link)
        requires
            spec_state_ok(old(self)@),
            spec_get_graph(old(self)@.store) is Ok ==> has_key(old(self)@.store.nodes, link.to.node_id),
        ensures
            final(self)@.store == spec_edit(old(self)@.store, Task::AddLink(link), (0, 0)),
            final(self)@.previews == old(self)@.previews,
            match spec_get_graph(old(self)@.store) {
                Err(_) => final(self)@.cache == old(self)@.cache,
                Ok(es) => final(self)@.cache == spec_cache_purge(old(self)@.cache, spec_downstream(old(self)@.store, es, link.to.node_id)),
            },
    {
        let id = link.to.node_id;
        self.cache_node_modified(&id);
        let _ = self.edit(Task::AddLink(link));
    }

    /// Deletes the links of node `node_id`: those attached to its property
    /// `property`, at either end, or every link at either end of the node when
    /// `property` is empty; after purging the cache of the node and of every
    /// node downstream of it.
    pub fn delete_links(&mut self, node_id: ID, property: String)
        requires
            spec_state_ok(old(self)@),
            spec_get_graph(old(self)@.store) is Ok ==> has_key(old(self)@.store.nodes, node_id),
        ensures
            final(self)@.store == spec_edit(old(self)@.store,
                Task::DeleteLinks(node_id, if property@.len() == 0 { None } else { Some(property) }), (0, 0)),
            final(self)@.previews == old(self)@.previews,
            match spec_get_graph(old(self)@.store) {
                Err(_) => final(self)@.cache == old(self)@.cache,
                Ok(es) => final(self)@.cache == spec_cache_purge(old(self)@.cache, spec_downstream(old(self)@.store, es, node_id)),
            },
    {
        let property = property_from_text(property);
        self.cache_node_modified(&node_id);
        let _ = self.edit(Task::DeleteLinks(node_id, property));
    }

    /// Replaces clip `id` of the given type with the clip sent, after purging
    /// the cache of every node that imports it and every node downstream of
    /// one.
    pub fn update_clip(&mut self, id: ID, clip_type: ClipType, data: ClipData)
        requires
            spec_state_ok(old(self)@),
        ensures
            final(self)@.store == spec_edit(old(self)@.store, Task::UpdateClip(id, clip_type, data), (0, 0)),
            final(self)@.previews == old(self)@.previews,
            match spec_get_graph(old(self)@.store) {
                Err(_) => final(self)@.cache == old(self)@.cache,
                Ok(es) => final(self)@.cache == spec_cache_purge(old(self)@.cache,
                    spec_downstream_of_all(old(self)@.store, es,
                        spec_clip_importers(old(self)@.store, id, clip_type, old(self)@.store.nodes.len() as int))),
            },
    {
        self.cache_clip_modified(&id, clip_type);
        let _ = self.edit(Task::UpdateClip(id, clip_type, data));
    }

    /// Deletes node `id` and every link at it, after purging the cache of it
    /// and of every node downstream of it.
    pub fn delete_node(&mut self, id: ID)
        requires
            spec_state_ok(old(self)@),
            spec_get_graph(old(self)@.store) is Ok ==> has_key(old(self)@.store.nodes, id),
        ensures
            final(self)@.store == spec_edit(old(self)@.store, Task::DeleteNode(id), (0, 0)),
            final(self)@.previews == old(self)@.previews,
            match spec_get_graph(old(self)@.store) {
                Err(_) => final(self)@.cache == old(self)@.cache,
                Ok(es) => final(self)@.cache == spec_cache_purge(old(self)@.cache, spec_downstream(old(self)@.store, es, id)),
            },
    {
        self.cache_node_modified(&id);
        let _ = self.edit(Task::DeleteNode(id));
    }

    /// The duration and number of chunks of the preview of composited clip
    /// `clip_id`, when its length is already known, so that the request can
    /// be answered at once.
    pub fn known_length(&self, clip_id: ID) -> (r: Option<(u64, u32)>)
        ensures
            r == spec_known_length(self@.previews, clip_id),
    {
        match id_index(&self.video_preview_generation, clip_id) {
            Some(i) => {
                proof {
                    assert(self@.previews[i as int] == (self.video_preview_generation@[i as int].0, self.video_preview_generation@[i as int].1@));
                }
                let rec = &self.video_preview_generation[i].1;
                match rec.duration {
                    Some(d) => Some((d, rec.chunks.len() as u32)),
                    None => None,
                }
            },
            None => None,
        }
    }

    /// Starts finding the length of the preview of composited clip `clip_id`:
    /// its record is replaced with an empty one.
    pub fn reset_preview(&mut self, clip_id: ID)
        ensures
            final(self)@ == (StateV {
                previews: assoc_insert(assoc_remove(old(self)@.previews, clip_id), clip_id, spec_empty_preview()),
                ..old(self)@
            }),
    {
        id_remove(&mut self.video_preview_generation, clip_id);
        let rec = PreviewGeneration { duration: None, codec: None, chunks: Vec::new() };
        assert(rec@ == spec_empty_preview());
        id_insert(&mut self.video_preview_generation, clip_id, rec);
    }

    /// Records the length a rendering process found for the preview of clip
    /// `clip_id`: its duration, and `number_of_chunks` chunks, none generated.
    pub fn record_length(&mut self, clip_id: ID, duration: u64, number_of_chunks: u32)
        ensures
            final(self)@ == (StateV {
                previews: assoc_insert(old(self)@.previews, clip_id, PreviewGenerationV {
                    duration: Some(duration),
                    codec: None,
                    chunks: Seq::new(number_of_chunks as nat, |i: int| VideoChunkStatus::NotGenerated),
                }),
                ..old(self)@
            }),
    {
        let mut chunks: Vec<VideoChunkStatus> = Vec::new();
        let mut k: u32 = 0;
        while k < number_of_chunks
            invariant
                k <= number_of_chunks,
                chunks@ =~= Seq::new(k as nat, |i: int| VideoChunkStatus::NotGenerated),
            decreases number_of_chunks - k,
        {
            chunks.push(VideoChunkStatus::NotGenerated);
            k = k + 1;
        }
        id_insert(&mut self.video_preview_generation, clip_id, PreviewGeneration { duration: Some(duration), codec: None, chunks });
    }

    /// Whether the chunks from `start` to `end` of the preview of clip
    /// `clip_id` can be sent at once: its length is known and each of them is
    /// generated.
    pub fn ready_chunks(&self, clip_id: ID, start: u32, end: u32) -> (r: bool)
        requires
            end < u32::MAX,
        ensures
            r == spec_ready_chunks(self@.previews, clip_id, start, end),
    {
        match id_index(&self.video_preview_generation, clip_id) {
            Some(i) => {
                proof {
                    assert(self@.previews[i as int] == (self.video_preview_generation@[i as int].0, self.video_preview_generation@[i as int].1@));
                }
                let rec = &self.video_preview_generation[i].1;
                match rec.duration {
                    Some(_) => chunks_generated(&rec.chunks, start, end),
                    None => false,
                }
            },
            None => false,
        }
    }

    /// Records that a rendering process (`pid`) generates the chunks from
    /// `start` to `end` of the preview of clip `clip_id`, whose duration and
    /// number of chunks it found; the other chunks are not generated. A range
    /// beyond the last chunk is outside `requires`.
    pub fn record_generation(&mut self, clip_id: ID, duration: u64, number_of_chunks: u32, start: u32, end: u32, pid: u32)
        requires
            start <= end ==> end < number_of_chunks,
            end < u32::MAX,
        ensures
            final(self)@ == (StateV {
                previews: assoc_insert(old(self)@.previews, clip_id, PreviewGenerationV {
                    duration: Some(duration),
                    codec: None,
                    chunks: spec_generating_statuses(number_of_chunks, start, end, pid),
                }),
                ..old(self)@
            }),
    {
        let chunks = generating_statuses(number_of_chunks, start, end, pid);
        id_insert(&mut self.video_preview_generation, clip_id, PreviewGeneration { duration: Some(duration), codec: None, chunks });
    }

    /// Records that chunk `chunk` of the preview of clip `clip_id` has been
    /// generated. A preview without a record, or a chunk beyond its last, is
    /// outside `requires`.
    pub fn chunk_completed(&mut self, clip_id: ID, chunk: u32)
        requires
            has_key(old(self)@.previews, clip_id),
            chunk < assoc_get(old(self)@.previews, clip_id).chunks.len(),
        ensures
            final(self)@ == (StateV {
                previews: assoc_insert(old(self)@.previews, clip_id, PreviewGenerationV {
                    chunks: assoc_get(old(self)@.previews, clip_id).chunks.update(chunk as int, VideoChunkStatus::Generated),
                    ..assoc_get(old(self)@.previews, clip_id)
                }),
                ..old(self)@
            }),
    {
        let ghost pv = self@.previews;
        proof {
            lemma_key_index(pv, clip_id);
        }
        match id_index(&self.video_preview_generation, clip_id) {
            Some(i) => {
                assert(pv[i as int] == (self.video_preview_generation@[i as int].0, self.video_preview_generation@[i as int].1@));
                let (k, mut rec) = self.video_preview_generation.remove(i);
                mark_chunk_generated(&mut rec.chunks, chunk);
                self.video_preview_generation.insert(i, (k, rec));
                assert(self@.previews =~= assoc_insert(pv, clip_id, PreviewGenerationV {
                    chunks: assoc_get(pv, clip_id).chunks.update(chunk as int, VideoChunkStatus::Generated),
                    ..assoc_get(pv, clip_id)
                }));
            },
            None => {},
        }
    }

    /// The file of chunk `chunk` of the preview of composited clip `clip_id`,
    /// to be sent to a client that asks for it: there is one when the clip
    /// exists and the chunk is generated.
    pub fn chunk_file(&self, loc: &Locations, clip_id: ID, chunk: u32) -> (r: Option<String>)
        ensures
            match r {
                Some(f) => spec_chunk_file(*loc, self@, clip_id, chunk) == Some(f@),
                None => spec_chunk_file(*loc, self@, clip_id, chunk) is None,
            },
    {
        let p = match id_index(&self.video_preview_generation, clip_id) {
            Some(i) => i,
            None => return None,
        };
        assert(id_map_view(self.store.clips.composited@) =~= self.store.clips.composited@);
        let c = match id_index(&self.store.clips.composited, clip_id) {
            Some(i) => i,
            None => return None,
        };
        assert(self@.previews[p as int] == (self.video_preview_generation@[p as int].0, self.video_preview_generation@[p as int].1@));
        let chunks = &self.video_preview_generation[p].1.chunks;
        if (chunk as usize) < chunks.len() {
            match chunks[chunk as usize] {
                VideoChunkStatus::Generated => {
                    let base = self.store.clips.composited[c].1.get_output_location(loc);
                    Some(segment_location(base.as_str(), chunk, "mp4"))
                },
                _ => None,
            }
        } else {
            None
        }
    }

    fn set_source_status(&mut self, i: usize, id: ID, status: SourceClipServerStatus)
        requires
            i as int == key_index(old(self)@.store.source, id),
            0 <= i < old(self).store.clips.source@.len(),
        ensures
            final(self)@ == (StateV {
                store: StoreV { source: spec_set_status(old(self)@.store.source, id, status), ..old(self)@.store },
                ..old(self)@
            }),
    {
        let ghost before = self@;
        let mut clip = self.store.clips.source[i].1.clone();
        clip.status = status;
        let ghost mv = id_map_view(self.store.clips.source@);
        proof {
            lemma_key_index(mv, id);
            assert(mv[i as int] == (self.store.clips.source@[i as int].0, self.store.clips.source@[i as int].1@));
        }
        self.store.clips.source.set(i, (id, clip));
        assert(id_map_view(self.store.clips.source@) =~= spec_set_status(before.store.source, id, status));
    }
}

/// A clip whose upload has begun cannot begin to be uploaded again.
pub proof fn law_upload_begins_once(s: StoreV, id: ID)
    requires
        spec_may_upload(s, id),
    ensures
        !spec_may_upload(StoreV { source: spec_set_status(s.source, id, SourceClipServerStatus::Uploading), ..s }, id),
{
    crate::assoc::lemma_assoc_insert_get(s.source, id, SourceClipV { status: SourceClipServerStatus::Uploading, ..assoc_get(s.source, id) }, id);
}

/// The length recorded for a preview is the length then known for it.
pub proof fn law_recorded_length_is_known(previews: Seq<(ID, PreviewGenerationV)>, id: ID, duration: u64, n: u32)
    ensures
        spec_known_length(assoc_insert(previews, id, PreviewGenerationV {
            duration: Some(duration),
            codec: None,
            chunks: Seq::new(n as nat, |i: int| VideoChunkStatus::NotGenerated),
        }), id) == Some((duration, n)),
{
    let rec = PreviewGenerationV { duration: Some(duration), codec: None, chunks: Seq::new(n as nat, |i: int| VideoChunkStatus::NotGenerated) };
    crate::assoc::lemma_assoc_insert_get(previews, id, rec, id);
    assert((n as nat) as u32 == n);
}

/// A chunk recorded as generated can be downloaded, from the chunk file of
/// its clip, as long as the clip exists.
pub proof fn law_completed_chunk_is_downloadable(loc: Locations, s: StateV, id: ID, chunk: u32)
    requires
        has_key(s.previews, id),
        chunk < assoc_get(s.previews, id).chunks.len(),
    ensures
        spec_chunk_file(loc, StateV {
            previews: assoc_insert(s.previews, id, PreviewGenerationV {
                chunks: assoc_get(s.previews, id).chunks.update(chunk as int, VideoChunkStatus::Generated),
                ..assoc_get(s.previews, id)
            }),
            ..s
        }, id, chunk) == (if has_key(s.store.composited, id) {
            Some(spec_segment_location(spec_output_location(loc, assoc_get(s.store.composited, id)), chunk, "mp4"@))
        } else {
            None
        }),
{
    let rec = PreviewGenerationV {
        chunks: assoc_get(s.previews, id).chunks.update(chunk as int, VideoChunkStatus::Generated),
        ..assoc_get(s.previews, id)
    };
    crate::assoc::lemma_assoc_insert_get(s.previews, id, rec, id);
}

} // verus!
