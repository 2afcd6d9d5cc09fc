use cs310_shared::abstract_pipeline::{add_source_clip_inputs, AbstractLink, AbstractLinkEndpoint, AbstractNode, AbstractPipeline};
use cs310_shared::clip::{AudioStreamInfo, ClipInfo, SourceClip, SourceClipServerStatus, VideoStreamInfo};
use cs310_shared::store::ClipStore;
use cs310_shared::node::PipeableStreamType;

fn n(t: &str, id: &str) -> AbstractNode {
    AbstractNode::new(t, Some(id.to_owned()))
}

#[test]
fn elements_and_links_render_as_gstreamer_text() {
    let v = AbstractNode::new_with_props("volume", Some("v1".to_owned()), vec![("volume".to_owned(), "0.5".to_owned())]);
    assert_eq!(v.to_gstreamer_pipeline(), "volume name=v1 volume=0.5");
    let l = AbstractLink {
        from: AbstractLinkEndpoint::new_with_property("demux".to_owned(), "video_0".to_owned()),
        to: AbstractLinkEndpoint::new("sink".to_owned()),
    };
    assert_eq!(l.to_gstreamer_pipeline(), "demux.video_0 ! sink.");
}

#[test]
fn linkers_and_aliases_are_recognised() {
    assert!(n("videoconvert", "a").is_linker());
    assert_eq!(n("audioconvert", "a").linker_to_type(), PipeableStreamType::Audio);
    assert!(!n("tee", "a").is_linker());
    assert!(AbstractNode::new_encoder(&PipeableStreamType::Video).is_aliased());
    assert_eq!(AbstractNode::new_decoder(&PipeableStreamType::Audio).node_type, "decoder:audio");
    assert!(!n("queue", "q").is_aliased());
}

#[test]
fn dead_ends_are_removed_and_sinks_kept() {
    let mut p = AbstractPipeline::new();
    let src = n("filesrc", "f");
    let sink = n("filesink", "s");
    let stray = n("identity", "x");
    p.link(&src, &sink);
    p.link(&src, &stray);
    p.add_node(src);
    p.add_node(sink);
    p.add_node(stray);
    let text = p.to_gstreamer_pipeline();
    assert_eq!(text, "\n f. ! s.\n filesrc name=f\n filesink name=s");
}

#[test]
fn an_audio_encoder_alias_becomes_avenc_aac() {
    let mut p = AbstractPipeline::new();
    let src = n("filesrc", "f");
    let enc = AbstractNode::new_encoder(&PipeableStreamType::Audio);
    let sink = n("filesink", "s");
    p.link(&src, &enc);
    p.link(&enc, &sink);
    p.add_node(src);
    p.add_node(enc);
    p.add_node(sink);
    let text = p.to_gstreamer_pipeline();
    assert!(text.contains("avenc_aac name="));
    assert!(!text.contains("encoder:"));
    assert_eq!(p.nodes.len(), 3);
    assert_eq!(p.links.len(), 2);
}

#[test]
fn merge_adds_elements_and_links() {
    let mut a = AbstractPipeline::new();
    a.add_node(n("filesrc", "f"));
    let mut b = AbstractPipeline::new();
    let x = n("queue", "q");
    let y = n("filesink", "s");
    b.link(&x, &y);
    b.add_node(x);
    b.add_node(y);
    b.add_node(n("fakesink", "f"));
    a.merge(b);
    assert_eq!(a.nodes.len(), 3);
    assert_eq!(a.links.len(), 1);
    let f = a.nodes.iter().find(|e| e.0 == "f").unwrap();
    assert_eq!(f.1.node_type, "fakesink");
}

#[test]
fn dead_ends_are_removed_round_after_round_and_cycles_stay() {
    let mut p = AbstractPipeline::new();
    let f = n("filesrc", "f");
    let a = n("queue", "a");
    let b = n("identity", "b");
    let x = n("queue", "x");
    let y = n("queue", "y");
    let s = n("filesink", "s");
    let t = n("tee", "t");
    p.link(&f, &a);
    p.link(&a, &b);
    p.link(&x, &y);
    p.link(&y, &x);
    p.link(&t, &s);
    for e in [f, a, b, x, y, s, t] {
        p.add_node(e);
    }
    p.remove_dangling();
    let mut names: Vec<String> = p.nodes.iter().map(|e| e.0.clone()).collect();
    names.sort();
    assert_eq!(names, vec!["s".to_owned(), "t".to_owned(), "x".to_owned(), "y".to_owned()]);
    assert_eq!(p.links.len(), 3);
    assert!(p.links.iter().all(|l| l.to.id != "a" && l.to.id != "b"));
}

#[test]
fn removing_dead_ends_twice_removes_nothing_more() {
    let mut p = AbstractPipeline::new();
    let f = n("filesrc", "f");
    let q = n("queue", "q");
    let s = n("filesink", "s");
    let d = n("identity", "d");
    p.link(&f, &q);
    p.link(&q, &s);
    p.link(&q, &d);
    for e in [f, q, s, d] {
        p.add_node(e);
    }
    p.remove_dangling();
    let names = |p: &AbstractPipeline| -> Vec<String> { p.nodes.iter().map(|e| e.0.clone()).collect() };
    let links = |p: &AbstractPipeline| -> Vec<String> { p.links.iter().map(|l| l.to_gstreamer_pipeline()).collect() };
    let (n1, l1) = (names(&p), links(&p));
    p.remove_dangling();
    assert_eq!(names(&p), n1);
    assert_eq!(links(&p), l1);
    assert_eq!(p.nodes.len(), 3);
    assert_eq!(p.links.len(), 2);
}

#[test]
fn source_clips_are_read_demuxed_and_decoded_per_stream() {
    let mut clips = ClipStore::new();
    clips.source.push((
        1,
        SourceClip {
            id: 1,
            name: "a".to_owned(),
            status: SourceClipServerStatus::Uploaded,
            info: Some(ClipInfo {
                duration: 1000,
                video_streams: vec![VideoStreamInfo { width: 1, height: 1, framerate_bits: 0, bitrate: 0 }],
                audio_streams: vec![
                    AudioStreamInfo { sample_rate: 1, number_of_channels: 2, bitrate: 0, language: "en".to_owned() },
                    AudioStreamInfo { sample_rate: 1, number_of_channels: 2, bitrate: 0, language: "fr".to_owned() },
                ],
                subtitle_streams: Vec::new(),
            }),
            original_file_location: None,
            file_location: Some("C:\\v\\a.mp4".to_owned()),
            original_device_id: None,
            thumbnail_location: None,
        },
    ));
    let mut p = AbstractPipeline::new();
    add_source_clip_inputs(&mut p, &clips);
    assert_eq!(p.nodes.len(), 8);
    assert_eq!(p.links.len(), 7);
    let src = p.nodes.iter().find(|e| e.1.node_type == "filesrc").unwrap();
    assert_eq!(src.1.properties, vec![("location".to_owned(), "\"C:/v/a.mp4\"".to_owned())]);
    let demux = p.nodes.iter().find(|e| e.1.node_type == "qtdemux").unwrap().0.clone();
    assert_eq!(p.links[0].to.id, demux);
    assert_eq!(p.links[0].from.id, src.0);
    let prefix = "source-clip-00000000-0000-0000-0000-000000000001";
    for name in ["video-0", "audio-0", "audio-1"] {
        assert!(p.nodes.iter().any(|e| e.0 == format!("{}-{}", prefix, name)));
    }
    assert_eq!(p.links[1].from.id, demux);
    assert_eq!(p.links[1].from.property.as_deref(), Some("video_0"));
    assert_eq!(p.links[5].from.property.as_deref(), Some("audio_1"));
    assert_eq!(p.links[6].to.id, format!("{}-audio-1", prefix));
    let decoders = p.nodes.iter().filter(|e| e.1.node_type.starts_with("decoder:")).count();
    assert_eq!(decoders, 3);
    assert!(p.nodes.iter().any(|e| e.1.node_type == "audioconvert"));
}

#[test]
fn a_video_decoder_alias_is_replaced_by_its_elements_and_link() {
    let mut p = AbstractPipeline::new();
    let src = n("filesrc", "f");
    let dec = AbstractNode::new_decoder(&PipeableStreamType::Video);
    let sink = n("filesink", "s");
    p.link(&src, &dec);
    p.link(&dec, &sink);
    p.add_node(src);
    p.add_node(dec);
    p.add_node(sink);
    let text = p.to_gstreamer_pipeline();
    assert!(!text.contains("decoder:"));
    assert_eq!(p.nodes.len(), 4);
    assert_eq!(p.links.len(), 3);
    let parse = p.nodes.iter().find(|(_, e)| e.node_type == "h264parse").unwrap().0.clone();
    let decode = p.nodes.iter().find(|(_, e)| e.node_type == "nvh264dec").unwrap().0.clone();
    assert!(p.nodes.iter().any(|(k, e)| k == "f" && e.node_type == "filesrc"));
    assert!(p.nodes.iter().any(|(k, e)| k == "s" && e.node_type == "filesink"));
    assert!(text.contains(&format!("\n {}. ! {}.", parse, decode)));
    assert!(text.contains(&format!("\n f. ! {}.", parse)));
    assert!(text.contains(&format!("\n {}. ! s.", decode)));
}

#[test]
fn a_split_converter_is_teed_and_decoded_per_consumer() {
    let mut p = AbstractPipeline::new();
    let src = n("filesrc", "f");
    let conv = n("videoconvert", "v");
    let s1 = n("filesink", "s1");
    let s2 = n("filesink", "s2");
    p.link(&src, &conv);
    p.link(&conv, &s1);
    p.link(&conv, &s2);
    p.add_node(src);
    p.add_node(conv);
    p.add_node(s1);
    p.add_node(s2);
    let text = p.to_gstreamer_pipeline();
    assert_eq!(text.matches("tee name=").count(), 1);
    assert_eq!(text.matches("queue name=").count(), 2);
    assert_eq!(text.matches("max-size-buffers=0").count(), 2);
    assert_eq!(text.matches("nvh264enc name=").count(), 1);
    assert_eq!(text.matches("nvh264dec name=").count(), 2);
    assert!(!text.contains("v. ! s1."));
    assert!(!text.contains("v. ! s2."));
    // each sink is fed by a decoder of its own
    let feeder = |sink: &str| {
        let l = p.links.iter().find(|l| l.to.id == sink).unwrap();
        p.nodes.iter().find(|(k, _)| *k == l.from.id).unwrap().1.node_type.clone()
    };
    assert_eq!(feeder("s1"), "nvh264dec");
    assert_eq!(feeder("s2"), "nvh264dec");
}
