use cs310_shared::clip::{ClipType, CompositedClip};
use cs310_shared::constants::{
    composited_clips_projects_location, intermediate_files_location, projects_location, store_json_location, Locations,
    APPLICATION_DATA_ROOT, APPLICATION_JSON_PATH, APPLICATION_MEDIA_OUTPUT,
};
use cs310_shared::node::{InputOrOutput, Node, PipeableStreamType, PipeableType, PipedType};

fn loc(d: &str, is_server: bool) -> Locations {
    Locations { data_location: d.to_owned(), is_server }
}

fn piped(node_id: u128, io: InputOrOutput, cache_id: Option<u128>) -> PipedType {
    PipedType {
        stream_type: PipeableType { video: 2, audio: 1, subtitles: 0 },
        node_id,
        property_name: "media".to_owned(),
        io,
        cache_id,
    }
}

#[test]
fn locations_are_under_the_data_root() {
    let l = loc("/data", true);
    assert_eq!(store_json_location(&l), "/data/pipeline.json");
    assert_eq!(projects_location(&l), "/data/temp/projects");
    assert_eq!(intermediate_files_location(&l), "/data/temp/intermediate");
    assert_eq!(composited_clips_projects_location(&l), "/data/temp/intermediate/composited-clips");
    assert_eq!(APPLICATION_MEDIA_OUTPUT("C:\\Users\\app"), "C:\\Users\\app\\output");
    assert_eq!(APPLICATION_JSON_PATH("C:\\Users\\app"), "C:\\Users\\app\\pipeline.json");
}

#[test]
fn save_locations_turn_backslashes_forward() {
    let l = loc("C:\\data", false);
    let p = piped(0x1f, InputOrOutput::Output, None);
    assert_eq!(
        p.get_save_location(&l),
        "C:/data/temp/intermediate/00000000-0000-0000-0000-00000000001f_media_output.xges"
    );
    assert_eq!(
        p.get_gst_save_location(&l),
        "file:///C:/data/temp/intermediate/00000000-0000-0000-0000-00000000001f_media_output.xges"
    );
    let cached = piped(0x1f, InputOrOutput::Input, Some(5));
    assert_eq!(
        cached.get_save_location_with_cache(&l, "C:\\cache"),
        "C:/cache/00000000-0000-0000-0000-000000000005"
    );
    assert_eq!(
        piped(2, InputOrOutput::Input, None).get_save_location_with_cache(&l, "C:\\cache"),
        "C:/data/temp/intermediate/00000000-0000-0000-0000-000000000002_media_input.xges"
    );
}

#[test]
fn gst_handles_count_streams() {
    let p = piped(3, InputOrOutput::Output, None);
    assert_eq!(
        p.get_gst_handle(&PipeableStreamType::Video, 1).unwrap(),
        "00000000-0000-0000-0000-000000000003-output-media-video-1"
    );
    assert!(p.get_gst_handle(&PipeableStreamType::Video, 2).is_none());
    assert!(p.get_gst_handle(&PipeableStreamType::Subtitles, 0).is_none());
    assert_eq!(Node::get_gstreamer_handle_id("n".to_owned(), "p".to_owned()), "n-p");
}

#[test]
fn transfer_pipes_need_enough_streams() {
    let from = piped(1, InputOrOutput::Output, None);
    let mut to = piped(2, InputOrOutput::Input, None);
    to.stream_type = PipeableType { video: 1, audio: 0, subtitles: 0 };
    let s = PipedType::gst_transfer_pipe_type(&from, &to, &PipeableStreamType::Video).unwrap();
    assert_eq!(
        s,
        " 00000000-0000-0000-0000-000000000001-output-media-video-0. ! videoconvert name=00000000-0000-0000-0000-000000000002-input-media-video-0"
    );
    to.stream_type = PipeableType { video: 3, audio: 0, subtitles: 0 };
    assert!(PipedType::gst_transfer_pipe(from.clone(), to.clone()).is_none());
}

#[test]
fn composited_clip_locations() {
    let l = loc("/srv", true);
    let c = CompositedClip { id: 0x10, name: "c".to_owned() };
    assert_eq!(c.get_output_location(&l), "/srv/output/composited-clip-00000000-0000-0000-0000-000000000010");
    assert_eq!(
        c.get_output_location_template(&l),
        "/srv/output/composited-clip-00000000-0000-0000-0000-000000000010/segment%06d.ts"
    );
    assert_eq!(
        c.get_location(&l),
        "file:////srv/temp/intermediate/composited-clips/00000000-0000-0000-0000-000000000010.xges"
    );
    assert_eq!(ClipType::Source, ClipType::Source);
}

#[test]
fn pipeable_type_helpers() {
    let a = PipeableType { video: 1, audio: 5, subtitles: 0 };
    let b = PipeableType { video: 3, audio: 2, subtitles: 0 };
    assert_eq!(PipeableType::min(&a, &b), PipeableType { video: 1, audio: 2, subtitles: 0 });
    assert_eq!(a.of_type(&PipeableStreamType::Audio), 5);
    assert!(!a.is_singular_type());
    assert!(PipeableType { video: 0, audio: 3, subtitles: 0 }.is_singular_type());
    assert_eq!(a.get_map()[1], (PipeableStreamType::Audio, 5));
    assert_eq!(PipeableStreamType::Subtitles.to_string(), "subtitles");
    assert_eq!(PipeableStreamType::Audio.stream_linker(), "audioconvert");
}

#[test]
fn the_client_data_root_is_under_the_data_directory() {
    let root = APPLICATION_DATA_ROOT("C:\\Users\\a\\AppData");
    assert_eq!(root, "C:\\Users\\a\\AppData\\AdamSmith\\VideoEditor");
    assert_eq!(APPLICATION_JSON_PATH(&root), "C:\\Users\\a\\AppData\\AdamSmith\\VideoEditor\\pipeline.json");
}

#[test]
fn gstreamer_ids_write_indices_in_decimal() {
    let c = CompositedClip { id: 0x10, name: "c".to_owned() };
    assert_eq!(
        c.get_gstreamer_id(&PipeableStreamType::Audio, 1207),
        "composited-clip-00000000-0000-0000-0000-000000000010-audio-1207"
    );
    assert_eq!(
        c.get_gstreamer_id(&PipeableStreamType::Video, -45),
        "composited-clip-00000000-0000-0000-0000-000000000010-video--45"
    );
    assert_eq!(
        c.get_gstreamer_id(&PipeableStreamType::Video, i32::MIN),
        "composited-clip-00000000-0000-0000-0000-000000000010-video--2147483648"
    );
    assert_eq!(
        c.get_gstreamer_id(&PipeableStreamType::Subtitles, 0),
        "composited-clip-00000000-0000-0000-0000-000000000010-subtitles-0"
    );
}
