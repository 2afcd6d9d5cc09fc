use cs310_shared::cache::Cache;
use cs310_shared::clip::{ClipType, CompositedClip, SourceClip, SourceClipServerStatus};
use cs310_shared::constants::Locations;
use cs310_shared::node::{Node, Position};
use cs310_shared::nodes::blur_node;
use cs310_shared::pipeline::{Link, LinkEndpoint};
use cs310_shared::server::State;
use cs310_shared::status::VideoChunkStatus;
use cs310_shared::store::Store;
use cs310_shared::task::ClipData;

fn blur(id: u128) -> Node {
    Node { id, group: 9, node_type: blur_node::IDENTIFIER.to_owned(), position: Position::new(), properties: Vec::new() }
}

fn link(from: u128, to: u128, input: &str) -> Link {
    Link {
        from: LinkEndpoint { node_id: from, property: "output".to_owned() },
        to: LinkEndpoint { node_id: to, property: input.to_owned() },
    }
}

fn source(id: u128, status: SourceClipServerStatus) -> SourceClip {
    SourceClip {
        id,
        name: "clip".to_owned(),
        status,
        info: None,
        original_file_location: None,
        file_location: None,
        original_device_id: None,
        thumbnail_location: None,
    }
}

fn empty_state() -> State {
    State { store: Store::new(), video_preview_generation: Vec::new(), cache: Cache::new() }
}

fn status_of(state: &State, id: u128) -> SourceClipServerStatus {
    state.store.clips.source.iter().find(|e| e.0 == id).unwrap().1.status
}

#[test]
fn an_upload_is_accepted_once_for_a_clip_held_by_its_client() {
    let mut state = empty_state();
    state.create_source_clip(source(0, SourceClipServerStatus::NeedsNewID), 7);
    assert_eq!(state.store.clips.source.len(), 1);
    assert_eq!(state.store.clips.source[0].1.id, 7);
    assert_eq!(status_of(&state, 7), SourceClipServerStatus::LocalOnly);
    assert!(state.begin_upload(7));
    assert_eq!(status_of(&state, 7), SourceClipServerStatus::Uploading);
    assert!(!state.begin_upload(7));
    assert!(!state.begin_upload(8));
    state.finish_upload(7);
    assert_eq!(status_of(&state, 7), SourceClipServerStatus::Uploaded);
    assert!(!state.begin_upload(7));
}

#[test]
fn created_nodes_and_clips_take_the_ids_the_server_chose() {
    let mut state = empty_state();
    state.create_node(blur(0), 5);
    assert_eq!(state.store.nodes.len(), 1);
    assert_eq!(state.store.nodes[0].0, 5);
    assert_eq!(state.store.nodes[0].1.id, 5);
    state.create_composited_clip(CompositedClip { id: 0, name: "c".to_owned() }, 6);
    assert_eq!(state.store.clips.composited.len(), 1);
    assert_eq!(state.store.clips.composited[0].0, 6);
    assert_eq!(state.store.clips.composited[0].1.id, 6);
    // the clip's output node comes with it
    assert_eq!(state.store.nodes.len(), 2);
}

#[test]
fn editing_a_node_purges_it_and_what_is_downstream_from_the_cache() {
    let mut state = empty_state();
    for id in [1u128, 2, 3, 4] {
        state.create_node(blur(0), id);
    }
    state.add_link(link(1, 2, "media"));
    state.add_link(link(2, 3, "media"));
    for id in [1u128, 2, 3, 4] {
        state.cache.add_to_cache(id, vec![("output".to_owned(), 100 + id)]);
    }
    let mut n = blur(2);
    n.position = Position { x: 10, y: 20 };
    state.update_node(n);
    assert!(state.cache.get(&1).is_some());
    assert!(state.cache.get(&2).is_none());
    assert!(state.cache.get(&3).is_none());
    assert!(state.cache.get(&4).is_some());
    let moved = &state.store.nodes.iter().find(|e| e.0 == 2).unwrap().1;
    assert_eq!((moved.position.x, moved.position.y), (10, 20));
}

#[test]
fn a_new_link_replaces_the_one_into_its_input() {
    let mut state = empty_state();
    for id in [1u128, 2, 3] {
        state.create_node(blur(0), id);
    }
    state.add_link(link(1, 3, "media"));
    state.add_link(link(2, 3, "media"));
    assert_eq!(state.store.pipeline.links.len(), 1);
    assert_eq!(state.store.pipeline.links[0].from.node_id, 2);
}

#[test]
fn deleting_links_by_property_and_with_an_empty_property() {
    let mut state = empty_state();
    for id in [1u128, 2, 3, 4] {
        state.create_node(blur(0), id);
    }
    state.add_link(link(1, 3, "media1"));
    state.add_link(link(2, 4, "media2"));
    state.add_link(link(1, 4, "media1"));
    // a property given deletes only the links at that property of the node
    state.delete_links(3, "media1".to_owned());
    let left: Vec<(u128, u128)> = state.store.pipeline.links.iter().map(|l| (l.from.node_id, l.to.node_id)).collect();
    assert_eq!(left, vec![(2, 4), (1, 4)]);
    // an empty property deletes every link at either end of the node
    state.delete_links(4, String::new());
    assert!(state.store.pipeline.links.is_empty());
}

#[test]
fn deleting_a_node_removes_its_links_and_its_cache() {
    let mut state = empty_state();
    for id in [1u128, 2] {
        state.create_node(blur(0), id);
    }
    state.add_link(link(1, 2, "media"));
    state.cache.add_to_cache(2, vec![("output".to_owned(), 5)]);
    state.delete_node(1);
    assert_eq!(state.store.nodes.len(), 1);
    assert!(state.store.pipeline.links.is_empty());
    assert!(state.cache.get(&2).is_none());
}

#[test]
fn updating_a_clip_keeps_its_id() {
    let mut state = empty_state();
    state.create_source_clip(source(0, SourceClipServerStatus::NeedsNewID), 7);
    let mut c = source(99, SourceClipServerStatus::Uploaded);
    c.name = "renamed".to_owned();
    state.update_clip(7, ClipType::Source, ClipData::Source(c));
    let clip = &state.store.clips.source.iter().find(|e| e.0 == 7).unwrap().1;
    assert_eq!(clip.id, 7);
    assert_eq!(clip.name, "renamed");
    // a clip that does not exist is not created
    state.update_clip(8, ClipType::Source, ClipData::Source(source(8, SourceClipServerStatus::Uploaded)));
    assert_eq!(state.store.clips.source.len(), 1);
}

#[test]
fn a_recorded_length_is_known_until_the_preview_is_reset() {
    let mut state = empty_state();
    assert_eq!(state.known_length(3), None);
    state.reset_preview(3);
    assert_eq!(state.known_length(3), None);
    state.record_length(3, 12_000, 4);
    assert_eq!(state.known_length(3), Some((12_000, 4)));
    assert!(!state.ready_chunks(3, 0, 0));
    state.reset_preview(3);
    assert_eq!(state.known_length(3), None);
}

#[test]
fn generated_chunks_are_ready_and_can_be_downloaded() {
    let mut state = empty_state();
    state.create_composited_clip(CompositedClip { id: 0, name: "c".to_owned() }, 1);
    state.record_generation(1, 9_000, 5, 1, 2, 77);
    let chunks = &state.video_preview_generation[0].1.chunks;
    assert_eq!(
        chunks,
        &vec![
            VideoChunkStatus::NotGenerated,
            VideoChunkStatus::Generating(77),
            VideoChunkStatus::Generating(77),
            VideoChunkStatus::NotGenerated,
            VideoChunkStatus::NotGenerated,
        ]
    );
    assert!(!state.ready_chunks(1, 1, 2));
    let loc = Locations { data_location: "/data".to_owned(), is_server: true };
    assert_eq!(state.chunk_file(&loc, 1, 1), None);
    state.chunk_completed(1, 1);
    state.chunk_completed(1, 2);
    assert!(state.ready_chunks(1, 1, 2));
    assert!(!state.ready_chunks(1, 1, 3));
    assert!(!state.ready_chunks(1, 4, 5));
    assert_eq!(
        state.chunk_file(&loc, 1, 2).unwrap(),
        "/data/output/composited-clip-00000000-0000-0000-0000-000000000001/segment000002.mp4"
    );
    assert_eq!(state.chunk_file(&loc, 2, 2), None);
    assert_eq!(state.chunk_file(&loc, 1, 9), None);
}

#[test]
fn clip_types_are_sent_as_one_byte() {
    assert_eq!(ClipType::Source.to_u8(), 0);
    assert_eq!(ClipType::Composited.to_u8(), 1);
    assert_eq!(ClipType::from_u8(0), Some(ClipType::Source));
    assert_eq!(ClipType::from_u8(1), Some(ClipType::Composited));
    assert_eq!(ClipType::from_u8(2), None);
}

#[test]
fn a_missing_source_clip_is_not_found() {
    let mut state = empty_state();
    assert_eq!(state.store.get_source_clip(7).unwrap_err(), "Clip not found");
    state.create_source_clip(source(0, SourceClipServerStatus::NeedsNewID), 7);
    assert_eq!(state.store.get_source_clip(7).unwrap().id, 7);
}
