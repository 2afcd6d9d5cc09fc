use cs310_shared::cache::Cache;
use cs310_shared::clip::{ClipIdentifier, ClipInfo, ClipType, CompositedClip, SourceClip, SourceClipServerStatus, VideoStreamInfo, AudioStreamInfo};
use cs310_shared::node::{InputOrOutput, Node, PipeableType, Position, PropertyValue};
use cs310_shared::nodes::{blur_node, concat_node, media_import_node, output_node};
use cs310_shared::pipeline::{Link, LinkEndpoint, Pipeline};
use cs310_shared::store::{ClipStore, Store};

fn node(id: u128, node_type: &str) -> Node {
    Node { id, group: 0, node_type: node_type.to_owned(), position: Position::new(), properties: Vec::new() }
}

fn with_clip(mut n: Node, id: u128, clip_type: ClipType) -> Node {
    n.properties.push(("clip".to_owned(), PropertyValue::Clip(ClipIdentifier { id, clip_type })));
    n
}

fn link(from: u128, fp: &str, to: u128, tp: &str) -> Link {
    Link {
        from: LinkEndpoint { node_id: from, property: fp.to_owned() },
        to: LinkEndpoint { node_id: to, property: tp.to_owned() },
    }
}

fn source_clip(id: u128, video: usize, audio: usize) -> SourceClip {
    SourceClip {
        id,
        name: "clip".to_owned(),
        status: SourceClipServerStatus::Uploaded,
        info: Some(ClipInfo {
            duration: 1000,
            video_streams: (0..video).map(|_| VideoStreamInfo { width: 1, height: 1, framerate_bits: 0, bitrate: 0 }).collect(),
            audio_streams: (0..audio)
                .map(|_| AudioStreamInfo { sample_rate: 1, number_of_channels: 2, bitrate: 0, language: "und".to_owned() })
                .collect(),
            subtitle_streams: Vec::new(),
        }),
        original_file_location: None,
        file_location: None,
        original_device_id: None,
        thumbnail_location: None,
    }
}

/// import (source clip 100: 1 video, 2 audio) -> blur -> output (composited 200)
fn chain_store() -> Store {
    let mut clips = ClipStore::new();
    clips.source.push((100, source_clip(100, 1, 2)));
    clips.composited.push((200, CompositedClip { id: 200, name: "out".to_owned() }));
    Store {
        nodes: vec![
            (3, with_clip(node(3, output_node::IDENTIFIER), 200, ClipType::Composited)),
            (2, node(2, blur_node::IDENTIFIER)),
            (1, with_clip(node(1, media_import_node::IDENTIFIER), 100, ClipType::Source)),
        ],
        clips,
        pipeline: Pipeline {
            links: vec![link(1, "output", 2, "media"), link(2, "output", 3, "media")],
        },
    }
}

#[test]
fn generate_pipeline_visits_in_topological_order_and_types_the_chain() {
    let store = chain_store();
    let cache = Cache::new();
    let g = store.pipeline.generate_pipeline(&store, &cache).unwrap();
    // node positions: 0 = output, 1 = blur, 2 = import; the only order is import, blur, output
    assert_eq!(g.order, vec![2, 1, 0]);
    let clip_type = PipeableType { video: 1, audio: 2, subtitles: 0 };
    let blur_data = &g.node_type_data.iter().find(|e| e.0 == 2).unwrap().1;
    assert_eq!(blur_data.piped_inputs.len(), 1);
    assert_eq!(blur_data.piped_inputs[0].0, "media");
    let piped = &blur_data.piped_inputs[0].1;
    assert_eq!(piped.stream_type, clip_type);
    assert_eq!(piped.node_id, 2);
    assert_eq!(piped.property_name, "media");
    assert_eq!(piped.io, InputOrOutput::Input);
    assert_eq!(piped.cache_id, None);
    assert_eq!(blur_data.outputs[0].property_type, clip_type);
    assert_eq!(blur_data.outputs[0].description, "The blurred media");
    let import_data = &g.node_type_data.iter().find(|e| e.0 == 1).unwrap().1;
    assert!(import_data.piped_inputs.is_empty());
    assert_eq!(import_data.outputs[0].description, "The clip itself");
    let out_data = &g.node_type_data.iter().find(|e| e.0 == 3).unwrap().1;
    assert!(out_data.outputs.is_empty());
    assert_eq!(g.composited_clip_data.len(), 1);
    assert_eq!(g.composited_clip_data[0].0, 200);
    assert_eq!(g.composited_clip_data[0].1.stream_type, clip_type);
}

#[test]
fn generate_pipeline_carries_cache_ids() {
    let store = chain_store();
    let mut cache = Cache::new();
    cache.add_to_cache(1, vec![("output".to_owned(), 777)]);
    let g = store.pipeline.generate_pipeline(&store, &cache).unwrap();
    let blur_data = &g.node_type_data.iter().find(|e| e.0 == 2).unwrap().1;
    assert_eq!(blur_data.piped_inputs[0].1.cache_id, Some(777));
    let out_data = &g.node_type_data.iter().find(|e| e.0 == 3).unwrap().1;
    assert_eq!(out_data.piped_inputs[0].1.cache_id, None);
}

#[test]
fn generate_pipeline_feeds_composited_clip_types_to_imports() {
    // output 3 renders clip 200; import 4 of clip 200 reads its type; concat 5 joins import 1 and import 4
    let mut store = chain_store();
    store.nodes.push((4, with_clip(node(4, media_import_node::IDENTIFIER), 200, ClipType::Composited)));
    store.nodes.push((5, node(5, concat_node::IDENTIFIER)));
    store.pipeline.links.push(link(1, "output", 5, "media1"));
    store.pipeline.links.push(link(4, "output", 5, "media2"));
    let g = store.pipeline.generate_pipeline(&store, &Cache::new()).unwrap();
    let concat_data = &g.node_type_data.iter().find(|e| e.0 == 5).unwrap().1;
    assert_eq!(concat_data.outputs[0].property_type, PipeableType { video: 1, audio: 2, subtitles: 0 });
    assert_eq!(concat_data.piped_inputs.len(), 2);
    let pos = |id: u128| g.order.iter().position(|x| store.nodes[*x].0 == id).unwrap();
    assert!(pos(3) < pos(4));
    assert!(pos(1) < pos(5) && pos(4) < pos(5));
}

#[test]
fn generate_pipeline_reports_a_cycle() {
    let store = Store {
        nodes: vec![(1, node(1, blur_node::IDENTIFIER)), (2, node(2, blur_node::IDENTIFIER))],
        clips: ClipStore::new(),
        pipeline: Pipeline { links: vec![link(1, "output", 2, "media"), link(2, "output", 1, "media")] },
    };
    let r = store.pipeline.generate_pipeline(&store, &Cache::new());
    assert_eq!(r.unwrap_err(), "Found cycle in the graph!");
}

#[test]
fn generate_pipeline_reports_io_errors_with_the_node_id() {
    let store = Store {
        nodes: vec![(1, with_clip(node(1, media_import_node::IDENTIFIER), 42, ClipType::Source))],
        clips: ClipStore::new(),
        pipeline: Pipeline::new(),
    };
    let r = store.pipeline.generate_pipeline(&store, &Cache::new());
    assert_eq!(
        r.unwrap_err(),
        "Could not find IO data for node 00000000-0000-0000-0000-000000000001: Clip ID is invalid"
    );
}

#[test]
fn get_graph_errors() {
    let no_clip = Store { nodes: vec![(1, node(1, output_node::IDENTIFIER))], clips: ClipStore::new(), pipeline: Pipeline::new() };
    assert_eq!(no_clip.pipeline.get_graph(&no_clip).err().unwrap(), "Output node with no clip detected!");

    let source_out = Store {
        nodes: vec![(1, with_clip(node(1, output_node::IDENTIFIER), 5, ClipType::Source))],
        clips: ClipStore::new(),
        pipeline: Pipeline::new(),
    };
    assert_eq!(
        source_out.pipeline.get_graph(&source_out).err().unwrap(),
        "Clip identifier for output node not valid (must be composited clip)!"
    );

    let mut bad = node(1, output_node::IDENTIFIER);
    bad.properties.push(("clip".to_owned(), PropertyValue::Other("3".to_owned())));
    let malformed = Store { nodes: vec![(1, bad)], clips: ClipStore::new(), pipeline: Pipeline::new() };
    assert_eq!(malformed.pipeline.get_graph(&malformed).err().unwrap(), "Clip identifier for output node not valid!");

    let no_import_clip = Store { nodes: vec![(1, node(1, media_import_node::IDENTIFIER))], clips: ClipStore::new(), pipeline: Pipeline::new() };
    assert_eq!(no_import_clip.pipeline.get_graph(&no_import_clip).err().unwrap(), "Input node with no clip detected!");

    let orphan = Store {
        nodes: vec![(1, with_clip(node(1, media_import_node::IDENTIFIER), 9, ClipType::Composited))],
        clips: ClipStore::new(),
        pipeline: Pipeline::new(),
    };
    assert_eq!(orphan.pipeline.get_graph(&orphan).err().unwrap(), "Reference to composited clip with no output!");

    let dangling = Store {
        nodes: vec![(1, node(1, blur_node::IDENTIFIER))],
        clips: ClipStore::new(),
        pipeline: Pipeline { links: vec![link(1, "output", 2, "media")] },
    };
    assert_eq!(dangling.pipeline.get_graph(&dangling).err().unwrap(), "Link contains reference to non-existent node");
}

#[test]
fn get_graph_builds_nodes_and_edges() {
    let store = chain_store();
    let (graph, ids) = store.pipeline.get_graph(&store).unwrap();
    assert_eq!(graph.node_count(), 3);
    assert_eq!(graph.edge_count(), 2);
    assert_eq!(ids.get_by_left(&1).map(|i| *i), Some(2));
    assert_eq!(ids.get_by_right(&0).map(|i| *i), Some(3));
}

#[test]
fn link_ids_use_hyphenated_uuids() {
    let l = link(1, "output", 0xabc, "media");
    assert_eq!(l.from.get_id(), "00000000-0000-0000-0000-000000000001.output");
    assert_eq!(
        l.get_id(),
        "00000000-0000-0000-0000-000000000001.output-00000000-0000-0000-0000-000000000abc.media"
    );
    assert!(l.from.same(&LinkEndpoint { node_id: 1, property: "output".to_owned() }));
    assert!(!l.from.same(&l.to));
}

#[test]
fn propagate_types_follows_the_order_it_is_given() {
    // two independent imports feeding a concat: either import may come first
    let mut clips = ClipStore::new();
    clips.source.push((100, source_clip(100, 1, 1)));
    let store = Store {
        nodes: vec![
            (1, with_clip(node(1, media_import_node::IDENTIFIER), 100, ClipType::Source)),
            (2, with_clip(node(2, media_import_node::IDENTIFIER), 100, ClipType::Source)),
            (5, node(5, concat_node::IDENTIFIER)),
        ],
        clips,
        pipeline: Pipeline { links: vec![link(1, "output", 5, "media1"), link(2, "output", 5, "media2")] },
    };
    let (graph, map) = store.pipeline.get_graph(&store).unwrap();
    let g = store.pipeline.propagate_types(&store, &Cache::new(), &graph, &map, vec![1, 0, 2]).unwrap();
    assert_eq!(g.order, vec![1, 0, 2]);
    let ids: Vec<u128> = g.node_type_data.iter().map(|e| e.0).collect();
    assert_eq!(ids, vec![2, 1, 5]);
    let concat_data = &g.node_type_data[2].1;
    assert_eq!(concat_data.piped_inputs.len(), 2);
    assert_eq!(concat_data.outputs[0].property_type, PipeableType { video: 1, audio: 1, subtitles: 0 });
    let g2 = store.pipeline.propagate_types(&store, &Cache::new(), &graph, &map, vec![0, 1, 2]).unwrap();
    let ids2: Vec<u128> = g2.node_type_data.iter().map(|e| e.0).collect();
    assert_eq!(ids2, vec![1, 2, 5]);
}

#[test]
fn the_project_graph_carries_no_data_on_its_edges() {
    let store = chain_store();
    let (graph, map) = store.pipeline.get_graph(&store).unwrap();
    assert_eq!(graph.node_count(), 3);
    assert_eq!(graph.edge_count(), 2);
    assert!(graph.edge_weights().all(|w| w.is_none()));
    assert_eq!(map.get_by_left(&1), Some(&2));
}

#[test]
fn generate_pipeline_records_every_node() {
    let mut store = chain_store();
    store.nodes.push((4, with_clip(node(4, media_import_node::IDENTIFIER), 200, ClipType::Composited)));
    store.nodes.push((5, node(5, concat_node::IDENTIFIER)));
    store.pipeline.links.push(link(1, "output", 5, "media1"));
    store.pipeline.links.push(link(4, "output", 5, "media2"));
    let g = store.pipeline.generate_pipeline(&store, &Cache::new()).unwrap();
    assert_eq!(g.node_type_data.len(), store.nodes.len());
    assert_eq!(g.order.len(), store.nodes.len());
    for (id, _) in &store.nodes {
        assert!(g.node_type_data.iter().any(|e| e.0 == *id));
    }
}
