//! What the client does with its project as the server answers its edits: the
//! ids the server chooses replace the client's own, and the preview of a
//! composited clip whose graph has changed is to be fetched again. The
//! client's network thread sends each edit, calls the matching method of
//! `ClientState`, and tells the user interface what changed.
use vstd::prelude::*;
use crate::ID;
use crate::assoc::{has_key, assoc_get, assoc_insert, assoc_remove, id_map_view, id_index, id_insert, lemma_key_index};
use crate::clip::{ClipType, CompositedClip, SourceClip, SourceClipV, SourceClipServerStatus};
use crate::node::{NodeValue, spec_clip_prop};
use crate::nodes::output_node;
use crate::pipeline::Link;
use crate::server::spec_set_status;
use crate::status::{VideoPreviewStatus, VideoPreviewStatusV, VideoPreviewChunkStatus};
use crate::preview::{spec_start_generating, spec_start_downloading, spec_preview_head, spec_preview_chunks};
use crate::store::{Store, StoreV, spec_group_clip_at, spec_rename_clip_nodes, spec_rename_link};

verus! {

/// The client's state: its copy of the project, and the state of the
/// preview of each composited clip, keyed by clip.
#[derive(Debug)]
pub struct ClientState {
    pub store: Store,
    pub video_preview_data: Vec<(ID, VideoPreviewStatus)>,
}

/// The value of the client's state.
pub struct ClientStateV {
    pub store: StoreV,
    pub previews: Seq<(ID, VideoPreviewStatusV)>,
}

impl View for ClientState {
    type V = ClientStateV;

    open spec fn view(&self) -> ClientStateV {
        ClientStateV { store: self.store@, previews: id_map_view(self.video_preview_data@) }
    }
}

/// The composited clip of a group: that of the first output node of the
/// group that names a clip, if any.
pub open spec fn spec_group_clip(ns: Seq<(ID, NodeValue)>, group: ID) -> Option<ID> {
    if exists|i: int| 0 <= i < ns.len() && spec_group_clip_at(ns, group, i) {
        let i = choose|i: int| 0 <= i < ns.len() && spec_group_clip_at(ns, group, i)
            && forall|j: int| 0 <= j < i ==> !spec_group_clip_at(ns, group, j);
        Some(spec_clip_prop(ns[i].1.properties, output_node::INPUT_CLIP@)->0.id)
    } else {
        None
    }
}

/// The previews with that of the group's clip, if any, to be fetched again.
pub open spec fn spec_reset_group_preview(previews: Seq<(ID, VideoPreviewStatusV)>, ns: Seq<(ID, NodeValue)>, group: ID)
    -> Seq<(ID, VideoPreviewStatusV)> {
    match spec_group_clip(ns, group) {
        Some(c) => assoc_insert(previews, c, VideoPreviewStatusV::LengthRequested),
        None => previews,
    }
}

/// The project after the server gave source clip `o` the id `n`: the clip
/// and every property naming it move to `n`, and a clip waiting for its id
/// is then held by this client alone, ready to be uploaded.
pub open spec fn spec_source_assigned(s: StoreV, o: ID, n: ID) -> StoreV {
    let moved = StoreV {
        source: assoc_insert(assoc_remove(s.source, o), n, SourceClipV { id: n, ..assoc_get(s.source, o) }),
        nodes: spec_rename_clip_nodes(s.nodes, o, n, ClipType::Source),
        ..s
    };
    if assoc_get(s.source, o).status == SourceClipServerStatus::NeedsNewID {
        StoreV { source: spec_set_status(moved.source, n, SourceClipServerStatus::LocalOnly), ..moved }
    } else {
        moved
    }
}

/// The project after the server gave node `o` the id `n`: the node and the
/// links at it move to `n`.
pub open spec fn spec_node_assigned(s: StoreV, o: ID, n: ID) -> StoreV {
    StoreV {
        nodes: assoc_insert(assoc_remove(s.nodes, o), n, NodeValue { id: n, ..assoc_get(s.nodes, o) }),
        links: s.links.map_values(|l: Link| spec_rename_link(l, o, n)),
        ..s
    }
}

/// A preview with each chunk the front end requested taken to generating.
pub open spec fn spec_status_start_generating(p: VideoPreviewStatusV) -> VideoPreviewStatusV {
    match p {
        VideoPreviewStatusV::Data(d, c, v, ch) => VideoPreviewStatusV::Data(d, c, v, spec_start_generating(ch)),
        _ => p,
    }
}

/// A preview with each chunk the server generated taken to downloading.
pub open spec fn spec_status_start_downloading(p: VideoPreviewStatusV) -> VideoPreviewStatusV {
    match p {
        VideoPreviewStatusV::Data(d, c, v, ch) => VideoPreviewStatusV::Data(d, c, v, spec_start_downloading(ch)),
        _ => p,
    }
}

/// The preview holds a chunk the server generated.
pub open spec fn spec_has_generated(p: VideoPreviewStatusV) -> bool {
    match p {
        VideoPreviewStatusV::Data(_, _, _, ch) => ch.contains(VideoPreviewChunkStatus::Generated),
        _ => false,
    }
}

/// The clips, in order, whose previews hold a chunk the server generated.
pub open spec fn spec_clips_to_download(ps: Seq<(ID, VideoPreviewStatusV)>) -> Seq<ID>
    decreases ps.len(),
{
    if ps.len() == 0 {
        Seq::empty()
    } else {
        let r = spec_clips_to_download(ps.drop_last());
        if spec_has_generated(ps.last().1) { r.push(ps.last().0) } else { r }
    }
}

/// Chunks `s` to `e` are the first run of chunks being generated: none
/// before `s` is, each from `s` to `e` is, and the chunk after `e`, if any,
/// is not.
pub open spec fn spec_generating_run(d: Seq<VideoPreviewChunkStatus>, s: int, e: int) -> bool {
    &&& 0 <= s <= e < d.len()
    &&& forall|k: int| 0 <= k < s ==> d[k] != VideoPreviewChunkStatus::Generating
    &&& forall|k: int| s <= k <= e ==> d[k] == VideoPreviewChunkStatus::Generating
    &&& e + 1 < d.len() ==> d[e + 1] != VideoPreviewChunkStatus::Generating
}

/// The preview after the server's answer to a request for its length: the
/// duration, and `n` chunks, none requested yet.
pub open spec fn spec_length_received(duration: u64, n: u32) -> VideoPreviewStatusV {
    VideoPreviewStatusV::Data(duration, None, false, Seq::new(n as nat, |i: int| VideoPreviewChunkStatus::NotRequested))
}

/// The codec string and whether there is video, as read from a chunk's
/// file, if they could be read.
pub open spec fn spec_codec_found(found: Option<(String, bool)>) -> Option<(Seq<char>, bool)> {
    match found {
        Some((c, v)) => Some((c@, v)),
        None => None,
    }
}

/// A preview after chunk `chunk` is downloaded: the chunk is downloaded, and
/// the codec string and whether there is video, when found, are kept if the
/// preview had no codec string yet.
pub open spec fn spec_chunk_downloaded(p: VideoPreviewStatusV, chunk: u32, found: Option<(Seq<char>, bool)>) -> VideoPreviewStatusV {
    match p {
        VideoPreviewStatusV::Data(d, c, v, ch) => {
            let (c2, v2) = match (c, found) {
                (None, Some((fc, fv))) => (Some(fc), fv),
                _ => (c, v),
            };
            VideoPreviewStatusV::Data(d, c2, v2, ch.update(chunk as int, VideoPreviewChunkStatus::Downloaded))
        },
        _ => p,
    }
}

/// A source clip waiting to be uploaded: held by this client alone, with
/// the file it was imported from.
pub open spec fn spec_awaits_upload(c: SourceClipV) -> bool {
    c.status == SourceClipServerStatus::LocalOnly && c.original_file_location is Some
}

/// The clip at `i` is the first that waits to be uploaded.
pub open spec fn spec_first_upload(ss: Seq<(ID, SourceClipV)>, i: int) -> bool {
    &&& 0 <= i < ss.len()
    &&& spec_awaits_upload(ss[i].1)
    &&& forall|j: int| 0 <= j < i ==> !spec_awaits_upload(#[trigger] ss[j].1)
}

/// The first run of chunks being generated, which the client asks the
/// server for next.
pub fn generating_range(data: &Vec<VideoPreviewChunkStatus>) -> (r: Option<(usize, usize)>)
    ensures
        match r {
            Some((s, e)) => spec_generating_run(data@, s as int, e as int),
            None => forall|k: int| 0 <= k < data@.len() ==> data@[k] != VideoPreviewChunkStatus::Generating,
        },
{
    let mut start: Option<usize> = None;
    let mut i: usize = 0;
    while i < data.len()
        invariant
            i <= data@.len(),
            match start {
                None => forall|k: int| 0 <= k < i ==> data@[k] != VideoPreviewChunkStatus::Generating,
                Some(s) => {
                    &&& s < i
                    &&& forall|k: int| 0 <= k < s ==> data@[k] != VideoPreviewChunkStatus::Generating
                    &&& forall|k: int| s <= k < i ==> data@[k] == VideoPreviewChunkStatus::Generating
                },
            },
        decreases data@.len() - i,
    {
        if data[i] == VideoPreviewChunkStatus::Generating {
            if start.is_none() {
                start = Some(i);
            }
        } else {
            match start {
                Some(s) => return Some((s, i - 1)),
                None => {},
            }
        }
        i = i + 1;
    }
    match start {
        Some(s) => Some((s, data.len() - 1)),
        None => None,
    }
}

/// There is one first run of chunks being generated.
pub proof fn law_generating_run_unique(d: Seq<VideoPreviewChunkStatus>, s1: int, e1: int, s2: int, e2: int)
    requires
        spec_generating_run(d, s1, e1),
        spec_generating_run(d, s2, e2),
    ensures
        s1 == s2 && e1 == e2,
{
    if s1 < s2 {
        assert(d[s1] == VideoPreviewChunkStatus::Generating);
    } else if s2 < s1 {
        assert(d[s2] == VideoPreviewChunkStatus::Generating);
    }
    if e1 < e2 {
        assert(d[e1 + 1] == VideoPreviewChunkStatus::Generating);
    } else if e2 < e1 {
        assert(d[e2 + 1] == VideoPreviewChunkStatus::Generating);
    }
}

/// `start_generating` on a preview's state maps its view as
/// `spec_status_start_generating` says.
proof fn lemma_view_start_generating(a: VideoPreviewStatus, b: VideoPreviewStatus)
    requires
        spec_preview_head(b) == spec_preview_head(a),
        match spec_preview_chunks(a) {
            Some(d) => spec_preview_chunks(b) == Some(spec_start_generating(d)),
            None => b == a,
        },
    ensures
        b@ == spec_status_start_generating(a@),
{
    match a {
        VideoPreviewStatus::Data(d, c, v, ch) => {
            match b {
                VideoPreviewStatus::Data(d2, c2, v2, ch2) => {},
                _ => {},
            }
        },
        _ => {},
    }
}

/// `start_downloading` on a preview's state maps its view as
/// `spec_status_start_downloading` says.
proof fn lemma_view_start_downloading(a: VideoPreviewStatus, b: VideoPreviewStatus, r: bool)
    requires
        spec_preview_head(b) == spec_preview_head(a),
        match spec_preview_chunks(a) {
            Some(d) => spec_preview_chunks(b) == Some(spec_start_downloading(d)) && r == d.contains(VideoPreviewChunkStatus::Generated),
            None => b == a && !r,
        },
    ensures
        b@ == spec_status_start_downloading(a@),
        r == spec_has_generated(a@),
{
    match a {
        VideoPreviewStatus::Data(d, c, v, ch) => {
            match b {
                VideoPreviewStatus::Data(d2, c2, v2, ch2) => {},
                _ => {},
            }
        },
        _ => {},
    }
}

/// `get_clip_from_group` finds the clip that `spec_group_clip` names.
proof fn lemma_group_clip(ns: Seq<(ID, NodeValue)>, group: ID, r: Option<ID>)
    requires
        match r {
            Some(c) => exists|i: int| 0 <= i < ns.len() && spec_group_clip_at(ns, group, i)
                && spec_clip_prop(ns[i].1.properties, output_node::INPUT_CLIP@)->0.id == c
                && forall|j: int| 0 <= j < i ==> !spec_group_clip_at(ns, group, j),
            None => forall|i: int| 0 <= i < ns.len() ==> !spec_group_clip_at(ns, group, i),
        },
    ensures
        r == spec_group_clip(ns, group),
{
    match r {
        Some(c) => {
            let i = choose|i: int| 0 <= i < ns.len() && spec_group_clip_at(ns, group, i)
                && spec_clip_prop(ns[i].1.properties, output_node::INPUT_CLIP@)->0.id == c
                && forall|j: int| 0 <= j < i ==> !spec_group_clip_at(ns, group, j);
            let k = choose|k: int| 0 <= k < ns.len() && spec_group_clip_at(ns, group, k)
                && forall|j: int| 0 <= j < k ==> !spec_group_clip_at(ns, group, j);
            assert(i == k) by {
                if i < k {
                    assert(!spec_group_clip_at(ns, group, i));
                } else if k < i {
                    assert(!spec_group_clip_at(ns, group, k));
                }
            }
        },
        None => {},
    }
}

impl ClientState {
    /// The client's state once it has fetched the project: no preview of any
    /// composited clip requested yet.
    pub fn new(store: Store) -> (r: Self)
        ensures
            r@.store == store@,
            r@.previews == store@.composited.map_values(|e: (ID, CompositedClip)| (e.0, VideoPreviewStatusV::NotRequested)),
    {
        let mut previews: Vec<(ID, VideoPreviewStatus)> = Vec::new();
        let mut i: usize = 0;
        while i < store.clips.composited.len()
            invariant
                i <= store@.composited.len(),
                id_map_view(previews@) =~= store@.composited.take(i as int).map_values(
                    |e: (ID, CompositedClip)| (e.0, VideoPreviewStatusV::NotRequested)),
            decreases store@.composited.len() - i,
        {
            let ghost before = id_map_view(previews@);
            previews.push((store.clips.composited[i].0, VideoPreviewStatus::NotRequested));
            assert(store@.composited.take(i + 1) =~= store@.composited.take(i as int).push(store@.composited[i as int]));
            assert(id_map_view(previews@) =~= before.push((store@.composited[i as int].0, VideoPreviewStatusV::NotRequested)));
            i = i + 1;
        }
        assert(store@.composited.take(i as int) =~= store@.composited);
        ClientState { store, video_preview_data: previews }
    }

    /// Marks the preview of the group's composited clip, if there is one, to
    /// be fetched again, as after a change to the group's graph; gives the
    /// clip.
    pub fn reset_group_preview(&mut self, group: ID) -> (r: Option<ID>)
        ensures
            r == spec_group_clip(old(self)@.store.nodes, group),
            final(self)@ == (ClientStateV {
                previews: spec_reset_group_preview(old(self)@.previews, old(self)@.store.nodes, group),
                ..old(self)@
            }),
    {
        let c = self.store.get_clip_from_group(group);
        proof {
            lemma_group_clip(self@.store.nodes, group, c);
        }
        match c {
            Some(id) => {
                id_insert(&mut self.video_preview_data, id, VideoPreviewStatus::LengthRequested);
            },
            None => {},
        }
        c
    }

    /// The server gave source clip `old_id` the id `new_id`: the clip and
    /// every property naming it move, and a clip waiting for its id is then
    /// held by this client alone, ready to be uploaded.
    pub fn source_clip_id_assigned(&mut self, old_id: ID, new_id: ID)
        requires
            has_key(old(self)@.store.source, old_id),
        ensures
            final(self)@ == (ClientStateV { store: spec_source_assigned(old(self)@.store, old_id, new_id), ..old(self)@ }),
    {
        let ghost s = self@.store;
        self.store.move_clip(&old_id, &new_id, ClipType::Source);
        let ghost moved = self@.store;
        let ghost mv = id_map_view(self.store.clips.source@);
        proof {
            crate::assoc::lemma_assoc_insert_get(assoc_remove(s.source, old_id), new_id,
                SourceClipV { id: new_id, ..assoc_get(s.source, old_id) }, new_id);
            lemma_key_index(mv, new_id);
        }
        match id_index(&self.store.clips.source, new_id) {
            Some(i) => {
                assert(mv[i as int] == (self.store.clips.source@[i as int].0, self.store.clips.source@[i as int].1@));
                let waiting = match self.store.clips.source[i].1.status {
                    SourceClipServerStatus::NeedsNewID => true,
                    _ => false,
                };
                if waiting {
                    let mut clip = self.store.clips.source[i].1.clone();
                    clip.status = SourceClipServerStatus::LocalOnly;
                    self.store.clips.source.set(i, (new_id, clip));
                    assert(id_map_view(self.store.clips.source@) =~= spec_set_status(moved.source, new_id, SourceClipServerStatus::LocalOnly));
                }
            },
            None => {},
        }
    }

    /// The server gave composited clip `old_id` the id `new_id`: the clip and
    /// every property naming it move, and its preview is not yet requested.
    pub fn composited_clip_id_assigned(&mut self, old_id: ID, new_id: ID)
        requires
            has_key(old(self)@.store.composited, old_id),
        ensures
            final(self)@.store == (StoreV {
                composited: assoc_insert(assoc_remove(old(self)@.store.composited, old_id), new_id,
                    CompositedClip { id: new_id, ..assoc_get(old(self)@.store.composited, old_id) }),
                nodes: spec_rename_clip_nodes(old(self)@.store.nodes, old_id, new_id, ClipType::Composited),
                ..old(self)@.store
            }),
            final(self)@.previews == assoc_insert(old(self)@.previews, new_id, VideoPreviewStatusV::NotRequested),
    {
        self.store.move_clip(&old_id, &new_id, ClipType::Composited);
        id_insert(&mut self.video_preview_data, new_id, VideoPreviewStatus::NotRequested);
    }

    /// The server gave node `old_id` the id `new_id`: the node and the links
    /// at it move, and the preview of its group's composited clip, if any, is
    /// to be fetched again; gives that clip.
    pub fn node_id_assigned(&mut self, old_id: ID, new_id: ID) -> (r: Option<ID>)
        requires
            has_key(old(self)@.store.nodes, old_id),
        ensures
            final(self)@.store == spec_node_assigned(old(self)@.store, old_id, new_id),
            r == spec_group_clip(final(self)@.store.nodes, assoc_get(old(self)@.store.nodes, old_id).group),
            final(self)@.previews == spec_reset_group_preview(old(self)@.previews, final(self)@.store.nodes,
                assoc_get(old(self)@.store.nodes, old_id).group),
    {
        let ghost s = self@.store;
        let group = match id_index(&self.store.nodes, old_id) {
            Some(i) => {
                proof {
                    lemma_key_index(s.nodes, old_id);
                    assert(s.nodes[i as int] == (self.store.nodes@[i as int].0, self.store.nodes@[i as int].1@));
                }
                self.store.nodes[i].1.group
            },
            None => 0,
        };
        self.store.move_node(&old_id, &new_id);
        self.reset_group_preview(group)
    }

    /// Takes each chunk that the front end requested to generating, in every
    /// preview, before the client asks the server for them.
    pub fn start_generating_all(&mut self)
        ensures
            final(self)@ == (ClientStateV {
                previews: old(self)@.previews.map_values(|e: (ID, VideoPreviewStatusV)| (e.0, spec_status_start_generating(e.1))),
                ..old(self)@
            }),
    {
        let ghost s0 = self@;
        let mut i: usize = 0;
        while i < self.video_preview_data.len()
            invariant
                i <= self@.previews.len(),
                self@.previews.len() == s0.previews.len(),
                self@.store == s0.store,
                forall|j: int| 0 <= j < i ==> #[trigger] self@.previews[j] == (s0.previews[j].0, spec_status_start_generating(s0.previews[j].1)),
                forall|j: int| i <= j < self@.previews.len() ==> #[trigger] self@.previews[j] == s0.previews[j],
            decreases self@.previews.len() - i,
        {
            let ghost before = self@.previews;
            let (k, mut st) = self.video_preview_data.remove(i);
            let ghost a = st;
            st.start_generating();
            proof {
                lemma_view_start_generating(a, st);
            }
            self.video_preview_data.insert(i, (k, st));
            assert forall|j: int| 0 <= j < self@.previews.len() implies #[trigger] self@.previews[j]
                == (if j == i { (before[j].0, spec_status_start_generating(before[j].1)) } else { before[j] }) by {
                if j < i {
                    assert(self@.previews[j] == before[j]);
                } else if j > i {
                    assert(self@.previews[j] == before[j]);
                }
            }
            i = i + 1;
        }
        assert(self@.previews =~= s0.previews.map_values(|e: (ID, VideoPreviewStatusV)| (e.0, spec_status_start_generating(e.1))));
    }

    /// Takes each chunk that the server generated to downloading, in every
    /// preview, and gives the clips, in order, that have chunks to download.
    pub fn start_downloading_all(&mut self) -> (r: Vec<ID>)
        ensures
            r@ == spec_clips_to_download(old(self)@.previews),
            final(self)@ == (ClientStateV {
                previews: old(self)@.previews.map_values(|e: (ID, VideoPreviewStatusV)| (e.0, spec_status_start_downloading(e.1))),
                ..old(self)@
            }),
    {
        let ghost s0 = self@;
        let mut clips: Vec<ID> = Vec::new();
        let mut i: usize = 0;
        while i < self.video_preview_data.len()
            invariant
                i <= self@.previews.len(),
                self@.previews.len() == s0.previews.len(),
                self@.store == s0.store,
                clips@ == spec_clips_to_download(s0.previews.take(i as int)),
                forall|j: int| 0 <= j < i ==> #[trigger] self@.previews[j] == (s0.previews[j].0, spec_status_start_downloading(s0.previews[j].1)),
                forall|j: int| i <= j < self@.previews.len() ==> #[trigger] self@.previews[j] == s0.previews[j],
            decreases self@.previews.len() - i,
        {
            let ghost before = self@.previews;
            proof {
                assert(s0.previews.take(i + 1).drop_last() =~= s0.previews.take(i as int));
                assert(s0.previews.take(i + 1).last() == s0.previews[i as int]);
            }
            assert(before[i as int] == (self.video_preview_data@[i as int].0, self.video_preview_data@[i as int].1@));
            let (k, mut st) = self.video_preview_data.remove(i);
            let ghost a = st;
            assert((k, a@) == s0.previews[i as int]);
            let any = st.start_downloading();
            proof {
                lemma_view_start_downloading(a, st, any);
            }
            if any {
                clips.push(k);
            }
            self.video_preview_data.insert(i, (k, st));
            assert forall|j: int| 0 <= j < self@.previews.len() implies #[trigger] self@.previews[j]
                == (if j == i { (before[j].0, spec_status_start_downloading(before[j].1)) } else { before[j] }) by {
                if j < i {
                    assert(self@.previews[j] == before[j]);
                } else if j > i {
                    assert(self@.previews[j] == before[j]);
                }
            }
            i = i + 1;
        }
        assert(s0.previews.take(i as int) =~= s0.previews);
        assert(self@.previews =~= s0.previews.map_values(|e: (ID, VideoPreviewStatusV)| (e.0, spec_status_start_downloading(e.1))));
        clips
    }

    /// The server answered a request for the length of clip `id`'s preview:
    /// its duration, and `n` chunks, none requested yet.
    pub fn length_received(&mut self, id: ID, duration: u64, n: u32)
        ensures
            final(self)@ == (ClientStateV {
                previews: assoc_insert(old(self)@.previews, id, spec_length_received(duration, n)),
                ..old(self)@
            }),
    {
        let mut data: Vec<VideoPreviewChunkStatus> = Vec::new();
        let mut k: u32 = 0;
        while k < n
            invariant
                k <= n,
                data@ =~= Seq::new(k as nat, |i: int| VideoPreviewChunkStatus::NotRequested),
            decreases n - k,
        {
            data.push(VideoPreviewChunkStatus::NotRequested);
            k = k + 1;
        }
        let st = VideoPreviewStatus::Data(duration, None, false, data);
        assert(st@ == spec_length_received(duration, n));
        id_insert(&mut self.video_preview_data, id, st);
    }

    /// The server generated chunk `chunk` of clip `id`'s preview. A preview
    /// without a record, or a chunk beyond the last of one with data, is
    /// outside `requires`.
    pub fn chunk_generated(&mut self, id: ID, chunk: u32)
        requires
            has_key(old(self)@.previews, id),
            assoc_get(old(self)@.previews, id) matches VideoPreviewStatusV::Data(_, _, _, ch) ==> chunk < ch.len(),
        ensures
            final(self)@ == (ClientStateV {
                previews: match assoc_get(old(self)@.previews, id) {
                    VideoPreviewStatusV::Data(d, c, v, ch) => assoc_insert(old(self)@.previews, id,
                        VideoPreviewStatusV::Data(d, c, v, ch.update(chunk as int, VideoPreviewChunkStatus::Generated))),
                    _ => old(self)@.previews,
                },
                ..old(self)@
            }),
    {
        let ghost pv = self@.previews;
        proof {
            lemma_key_index(pv, id);
        }
        match id_index(&self.video_preview_data, id) {
            Some(i) => {
                assert(pv[i as int] == (self.video_preview_data@[i as int].0, self.video_preview_data@[i as int].1@));
                let (k, st) = self.video_preview_data.remove(i);
                let st = match st {
                    VideoPreviewStatus::Data(d, c, v, mut data) => {
                        data.set(chunk as usize, VideoPreviewChunkStatus::Generated);
                        VideoPreviewStatus::Data(d, c, v, data)
                    },
                    other => other,
                };
                self.video_preview_data.insert(i, (k, st));
                proof {
                    match assoc_get(pv, id) {
                        VideoPreviewStatusV::Data(d, c, v, ch) => {
                            assert(self@.previews =~= pv.update(i as int, (id,
                                VideoPreviewStatusV::Data(d, c, v, ch.update(chunk as int, VideoPreviewChunkStatus::Generated)))));
                        },
                        _ => {
                            assert(self@.previews =~= pv);
                        },
                    }
                }
            },
            None => {},
        }
    }

    /// Chunk `chunk` of clip `id`'s preview is downloaded; `found` is the
    /// codec string and whether there is video, as read from the chunk's
    /// file, and is kept when the preview had no codec string yet. A preview
    /// without a record, or a chunk beyond the last of one with data, is
    /// outside `requires`.
    pub fn chunk_downloaded(&mut self, id: ID, chunk: u32, found: Option<(String, bool)>)
        requires
            has_key(old(self)@.previews, id),
            assoc_get(old(self)@.previews, id) matches VideoPreviewStatusV::Data(_, _, _, ch) ==> chunk < ch.len(),
        ensures
            final(self)@ == (ClientStateV {
                previews: match assoc_get(old(self)@.previews, id) {
                    VideoPreviewStatusV::Data(..) => assoc_insert(old(self)@.previews, id,
                        spec_chunk_downloaded(assoc_get(old(self)@.previews, id), chunk, spec_codec_found(found))),
                    _ => old(self)@.previews,
                },
                ..old(self)@
            }),
    {
        let ghost pv = self@.previews;
        proof {
            lemma_key_index(pv, id);
        }
        match id_index(&self.video_preview_data, id) {
            Some(i) => {
                assert(pv[i as int] == (self.video_preview_data@[i as int].0, self.video_preview_data@[i as int].1@));
                let (k, st) = self.video_preview_data.remove(i);
                let st = match st {
                    VideoPreviewStatus::Data(d, c, v, mut data) => {
                        data.set(chunk as usize, VideoPreviewChunkStatus::Downloaded);
                        let (c2, v2) = match c {
                            Some(x) => (Some(x), v),
                            None => match found {
                                Some((s, fv)) => (Some(s), fv),
                                None => (None, v),
                            },
                        };
                        VideoPreviewStatus::Data(d, c2, v2, data)
                    },
                    other => other,
                };
                let ghost stv = st@;
                self.video_preview_data.insert(i, (k, st));
                proof {
                    match assoc_get(pv, id) {
                        VideoPreviewStatusV::Data(d, c, v, ch) => {
                            assert(self@.previews =~= pv.update(i as int, (id, stv)));
                        },
                        _ => {
                            assert(self@.previews =~= pv);
                        },
                    }
                }
            },
            None => {},
        }
    }

    /// Picks the first source clip that waits to be uploaded, marks it as
    /// uploading, and gives its id and value; none when no clip waits.
    pub fn next_upload(&mut self) -> (r: Option<(ID, SourceClip)>)
        ensures
            match r {
                Some((id, clip)) => exists|i: int| #[trigger] spec_first_upload(old(self)@.store.source, i)
                    && id == old(self)@.store.source[i].0
                    && clip@ == SourceClipV { status: SourceClipServerStatus::Uploading, ..old(self)@.store.source[i].1 }
                    && final(self)@ == (ClientStateV {
                        store: StoreV {
                            source: old(self)@.store.source.update(i, (id, clip@)),
                            ..old(self)@.store
                        },
                        ..old(self)@
                    }),
                None => (forall|i: int| 0 <= i < old(self)@.store.source.len() ==> !spec_awaits_upload(#[trigger] old(self)@.store.source[i].1))
                    && final(self)@ == old(self)@,
            },
    {
        let ghost s0 = self@;
        let mut i: usize = 0;
        while i < self.store.clips.source.len()
            invariant
                i <= self@.store.source.len(),
                self@ == s0,
                s0 == old(self)@,
                forall|j: int| 0 <= j < i ==> !spec_awaits_upload(#[trigger] s0.store.source[j].1),
            decreases self@.store.source.len() - i,
        {
            assert(s0.store.source[i as int] == (self.store.clips.source@[i as int].0, self.store.clips.source@[i as int].1@));
            let waiting = match self.store.clips.source[i].1.status {
                SourceClipServerStatus::LocalOnly => self.store.clips.source[i].1.original_file_location.is_some(),
                _ => false,
            };
            if waiting {
                let id = self.store.clips.source[i].0;
                let mut clip = self.store.clips.source[i].1.clone();
                clip.status = SourceClipServerStatus::Uploading;
                let copy = clip.clone();
                self.store.clips.source.set(i, (id, clip));
                assert(self@.store.source =~= s0.store.source.update(i as int, (id, copy@)));
                assert(spec_first_upload(s0.store.source, i as int));
                return Some((id, copy));
            }
            i = i + 1;
        }
        None
    }

    /// The upload of source clip `id` ended: the clip, if it is still there,
    /// is uploaded when the upload succeeded, and waits again when it failed.
    pub fn upload_finished(&mut self, id: ID, succeeded: bool)
        ensures
            final(self)@ == (if has_key(old(self)@.store.source, id) {
                ClientStateV {
                    store: StoreV {
                        source: spec_set_status(old(self)@.store.source, id,
                            if succeeded { SourceClipServerStatus::Uploaded } else { SourceClipServerStatus::LocalOnly }),
                        ..old(self)@.store
                    },
                    ..old(self)@
                }
            } else {
                old(self)@
            }),
    {
        let ghost s0 = self@;
        match id_index(&self.store.clips.source, id) {
            Some(i) => {
                let ghost mv = id_map_view(self.store.clips.source@);
                proof {
                    lemma_key_index(mv, id);
                    assert(mv[i as int] == (self.store.clips.source@[i as int].0, self.store.clips.source@[i as int].1@));
                }
                let mut clip = self.store.clips.source[i].1.clone();
                clip.status = if succeeded { SourceClipServerStatus::Uploaded } else { SourceClipServerStatus::LocalOnly };
                self.store.clips.source.set(i, (id, clip));
                assert(id_map_view(self.store.clips.source@) =~= spec_set_status(s0.store.source, id,
                    if succeeded { SourceClipServerStatus::Uploaded } else { SourceClipServerStatus::LocalOnly }));
            },
            None => {},
        }
    }

    /// The links into node `node_id` changed: the preview of its group's
    /// composited clip, if any, is to be fetched again; gives that clip.
    pub fn links_changed(&mut self, node_id: ID) -> (r: Option<ID>)
        requires
            has_key(old(self)@.store.nodes, node_id),
        ensures
            r == spec_group_clip(old(self)@.store.nodes, assoc_get(old(self)@.store.nodes, node_id).group),
            final(self)@ == (ClientStateV {
                previews: spec_reset_group_preview(old(self)@.previews, old(self)@.store.nodes,
                    assoc_get(old(self)@.store.nodes, node_id).group),
                ..old(self)@
            }),
    {
        let ghost s = self@.store;
        let group = match id_index(&self.store.nodes, node_id) {
            Some(i) => {
                proof {
                    lemma_key_index(s.nodes, node_id);
                    assert(s.nodes[i as int] == (self.store.nodes@[i as int].0, self.store.nodes@[i as int].1@));
                }
                self.store.nodes[i].1.group
            },
            None => 0,
        };
        self.reset_group_preview(group)
    }
}

/// A clip picked for upload no longer waits for one; when the upload ends it
/// waits again only if the upload failed (and the clip still has its file).
pub proof fn law_upload_waits_until_done(ss: Seq<(ID, SourceClipV)>, id: ID, c: SourceClipV, succeeded: bool)
    requires
        has_key(ss, id),
    ensures
        !spec_awaits_upload(SourceClipV { status: SourceClipServerStatus::Uploading, ..c }),
        spec_awaits_upload(assoc_get(spec_set_status(ss, id,
            if succeeded { SourceClipServerStatus::Uploaded } else { SourceClipServerStatus::LocalOnly }), id))
            <==> !succeeded && assoc_get(ss, id).original_file_location is Some,
{
    let st = if succeeded { SourceClipServerStatus::Uploaded } else { SourceClipServerStatus::LocalOnly };
    crate::assoc::lemma_assoc_insert_get(ss, id, SourceClipV { status: st, ..assoc_get(ss, id) }, id);
}

} // verus!
