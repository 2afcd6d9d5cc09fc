use cs310_shared::client::{generating_range, ClientState};
use cs310_shared::clip::{ClipIdentifier, ClipType, CompositedClip, SourceClip, SourceClipServerStatus};
use cs310_shared::networking::{property_from_text, property_to_text};
use cs310_shared::node::{Node, Position, PropertyValue};
use cs310_shared::nodes::{blur_node, media_import_node, output_node};
use cs310_shared::pipeline::{Link, LinkEndpoint};
use cs310_shared::status::VideoPreviewChunkStatus::{Downloaded, Downloading, Generated, Generating, NotRequested, Requested};
use cs310_shared::status::{VideoPreviewChunkStatus, VideoPreviewStatus};
use cs310_shared::store::Store;

fn node(id: u128, group: u128, node_type: &str) -> Node {
    Node { id, group, node_type: node_type.to_owned(), position: Position::new(), properties: Vec::new() }
}

fn with_clip(mut n: Node, id: u128, clip_type: ClipType) -> Node {
    n.properties.push(("clip".to_owned(), PropertyValue::Clip(ClipIdentifier { id, clip_type })));
    n
}

fn link(from: u128, to: u128) -> Link {
    Link {
        from: LinkEndpoint { node_id: from, property: "output".to_owned() },
        to: LinkEndpoint { node_id: to, property: "media".to_owned() },
    }
}

fn source(id: u128, status: SourceClipServerStatus) -> SourceClip {
    SourceClip {
        id,
        name: "clip".to_owned(),
        status,
        info: None,
        original_file_location: None,
        file_location: None,
        original_device_id: None,
        thumbnail_location: None,
    }
}

/// group 50: import 1 of source clip 10 -> blur 2 -> output 3 of composited clip 20; node 4 alone in group 60
fn client() -> ClientState {
    let mut store = Store::new();
    store.clips.source.push((10, source(10, SourceClipServerStatus::NeedsNewID)));
    store.clips.composited.push((20, CompositedClip { id: 20, name: "c".to_owned() }));
    store.nodes.push((1, with_clip(node(1, 50, media_import_node::IDENTIFIER), 10, ClipType::Source)));
    store.nodes.push((2, node(2, 50, blur_node::IDENTIFIER)));
    store.nodes.push((3, with_clip(node(3, 50, output_node::IDENTIFIER), 20, ClipType::Composited)));
    store.nodes.push((4, node(4, 60, blur_node::IDENTIFIER)));
    store.pipeline.links.push(link(1, 2));
    store.pipeline.links.push(link(2, 3));
    ClientState { store, video_preview_data: Vec::new() }
}

fn preview_of(c: &ClientState, id: u128) -> Option<&VideoPreviewStatus> {
    c.video_preview_data.iter().find(|e| e.0 == id).map(|e| &e.1)
}

#[test]
fn a_source_clip_takes_the_servers_id_and_becomes_ready_to_upload() {
    let mut c = client();
    c.source_clip_id_assigned(10, 110);
    assert_eq!(c.store.clips.source.len(), 1);
    assert_eq!(c.store.clips.source[0].0, 110);
    assert_eq!(c.store.clips.source[0].1.id, 110);
    assert_eq!(c.store.clips.source[0].1.status, SourceClipServerStatus::LocalOnly);
    let import = &c.store.nodes.iter().find(|e| e.0 == 1).unwrap().1;
    match &import.properties[0].1 {
        PropertyValue::Clip(ci) => assert_eq!(ci.id, 110),
        _ => panic!("the clip property is gone"),
    }
}

#[test]
fn an_uploaded_source_clip_keeps_its_status_when_it_moves() {
    let mut c = client();
    c.store.clips.source[0].1.status = SourceClipServerStatus::Uploaded;
    c.source_clip_id_assigned(10, 110);
    assert_eq!(c.store.clips.source[0].1.status, SourceClipServerStatus::Uploaded);
}

#[test]
fn a_composited_clip_takes_the_servers_id_with_no_preview_requested() {
    let mut c = client();
    c.composited_clip_id_assigned(20, 120);
    assert_eq!(c.store.clips.composited[0].0, 120);
    assert_eq!(c.store.clips.composited[0].1.id, 120);
    assert!(matches!(preview_of(&c, 120), Some(VideoPreviewStatus::NotRequested)));
    let out = &c.store.nodes.iter().find(|e| e.0 == 3).unwrap().1;
    match &out.properties[0].1 {
        PropertyValue::Clip(ci) => assert_eq!(ci.id, 120),
        _ => panic!("the clip property is gone"),
    }
}

#[test]
fn a_node_takes_the_servers_id_and_its_groups_preview_is_fetched_again() {
    let mut c = client();
    assert_eq!(c.node_id_assigned(2, 102), Some(20));
    assert!(c.store.nodes.iter().any(|e| e.0 == 102 && e.1.id == 102));
    assert!(!c.store.nodes.iter().any(|e| e.0 == 2));
    assert_eq!(c.store.pipeline.links[0].to.node_id, 102);
    assert_eq!(c.store.pipeline.links[1].from.node_id, 102);
    assert!(matches!(preview_of(&c, 20), Some(VideoPreviewStatus::LengthRequested)));
}

#[test]
fn changed_links_reset_only_the_preview_of_their_groups_clip() {
    let mut c = client();
    assert_eq!(c.links_changed(4), None);
    assert!(c.video_preview_data.is_empty());
    assert_eq!(c.links_changed(2), Some(20));
    assert!(matches!(preview_of(&c, 20), Some(VideoPreviewStatus::LengthRequested)));
    assert_eq!(c.reset_group_preview(60), None);
    assert_eq!(c.video_preview_data.len(), 1);
}

#[test]
fn a_link_deletion_property_is_sent_as_text() {
    assert_eq!(property_to_text(Some("media1".to_owned())), "media1");
    assert_eq!(property_to_text(None), "");
    assert_eq!(property_from_text("media1".to_owned()), Some("media1".to_owned()));
    assert_eq!(property_from_text(String::new()), None);
    assert_eq!(property_from_text(property_to_text(None)), None);
}

fn chunks_of(c: &ClientState, id: u128) -> Vec<VideoPreviewChunkStatus> {
    match preview_of(c, id) {
        Some(VideoPreviewStatus::Data(_, _, _, data)) => data.clone(),
        _ => panic!("the preview has no data"),
    }
}

#[test]
fn the_first_run_of_generating_chunks_is_asked_for() {
    assert_eq!(generating_range(&vec![]), None);
    assert_eq!(generating_range(&vec![NotRequested, Requested, Downloaded]), None);
    assert_eq!(generating_range(&vec![NotRequested, Generating, Generating, Generated, Generating]), Some((1, 2)));
    assert_eq!(generating_range(&vec![Generating]), Some((0, 0)));
    assert_eq!(generating_range(&vec![Downloaded, Generating, Generating]), Some((1, 2)));
}

#[test]
fn a_preview_goes_from_requested_to_downloaded() {
    let mut c = client();
    c.length_received(20, 8_000, 3);
    assert_eq!(chunks_of(&c, 20), vec![NotRequested, NotRequested, NotRequested]);
    if let Some((_, VideoPreviewStatus::Data(_, _, _, data))) = c.video_preview_data.iter_mut().find(|e| e.0 == 20) {
        data[1] = Requested;
        data[2] = Requested;
    }
    c.start_generating_all();
    assert_eq!(chunks_of(&c, 20), vec![NotRequested, Generating, Generating]);
    c.chunk_generated(20, 1);
    assert_eq!(chunks_of(&c, 20), vec![NotRequested, Generated, Generating]);
    assert_eq!(c.start_downloading_all(), vec![20]);
    assert_eq!(chunks_of(&c, 20), vec![NotRequested, Downloading, Generating]);
    assert_eq!(c.start_downloading_all(), Vec::<u128>::new());
    c.chunk_downloaded(20, 1, Some(("video/mp2t; codecs=\"avc1.64001f\"".to_owned(), true)));
    c.chunk_downloaded(20, 2, Some(("other".to_owned(), false)));
    match preview_of(&c, 20) {
        Some(VideoPreviewStatus::Data(d, codec, video, data)) => {
            assert_eq!(*d, 8_000);
            assert_eq!(codec.as_deref(), Some("video/mp2t; codecs=\"avc1.64001f\""));
            assert!(*video);
            assert_eq!(data, &vec![NotRequested, Downloaded, Downloaded]);
        }
        _ => panic!("the preview has no data"),
    }
}

#[test]
fn previews_without_data_are_left_alone() {
    let mut c = client();
    c.reset_group_preview(50);
    c.start_generating_all();
    assert!(c.start_downloading_all().is_empty());
    c.chunk_generated(20, 0);
    assert!(matches!(preview_of(&c, 20), Some(VideoPreviewStatus::LengthRequested)));
}

#[test]
fn source_clips_are_uploaded_one_at_a_time_and_again_after_a_failure() {
    let mut c = client();
    // the clip still waits for its id: nothing to upload
    assert!(c.next_upload().is_none());
    c.store.clips.source[0].1.status = SourceClipServerStatus::LocalOnly;
    assert!(c.next_upload().is_none());
    c.store.clips.source[0].1.original_file_location = Some("/videos/a.mp4".to_owned());
    let (id, clip) = c.next_upload().unwrap();
    assert_eq!(id, 10);
    assert_eq!(clip.status, SourceClipServerStatus::Uploading);
    assert_eq!(c.store.clips.source[0].1.status, SourceClipServerStatus::Uploading);
    assert!(c.next_upload().is_none());
    c.upload_finished(10, false);
    assert_eq!(c.store.clips.source[0].1.status, SourceClipServerStatus::LocalOnly);
    assert_eq!(c.next_upload().unwrap().0, 10);
    c.upload_finished(10, true);
    assert_eq!(c.store.clips.source[0].1.status, SourceClipServerStatus::Uploaded);
    assert!(c.next_upload().is_none());
    c.upload_finished(99, true);
    assert_eq!(c.store.clips.source.len(), 1);
}

#[test]
fn a_fetched_project_starts_with_no_preview_requested() {
    let c = ClientState::new(client().store);
    assert_eq!(c.video_preview_data.len(), 1);
    assert_eq!(c.video_preview_data[0].0, 20);
    assert!(matches!(c.video_preview_data[0].1, VideoPreviewStatus::NotRequested));
    assert_eq!(c.store.nodes.len(), 4);
}
