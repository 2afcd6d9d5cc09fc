use cs310_shared::cache::Cache;
use cs310_shared::clip::{ClipIdentifier, ClipType, CompositedClip};
use cs310_shared::global::uniq_id;
use cs310_shared::node::{Node, Position, PropertyValue};
use cs310_shared::nodes::{blur_node, media_import_node, output_node};
use cs310_shared::pipeline::{Link, LinkEndpoint, Pipeline};
use cs310_shared::store::{ClipStore, Store};

fn blur(id: u128) -> Node {
    Node {
        id,
        group: uniq_id(),
        node_type: blur_node::IDENTIFIER.to_owned(),
        position: Position::new(),
        properties: Vec::new(),
    }
}

fn link(from: u128, to: u128) -> Link {
    Link {
        from: LinkEndpoint { node_id: from, property: blur_node::OUTPUT_OUTPUT.to_owned() },
        to: LinkEndpoint { node_id: to, property: blur_node::INPUT_MEDIA.to_owned() },
    }
}

#[test]
fn test_cache_1() {
    let node1 = Node {
        id: uniq_id(),
        group: uniq_id(),
        node_type: blur_node::IDENTIFIER.to_owned(),
        position: Position::new(),
        properties: Vec::new(),
    };

    let node2 = Node {
        id: uniq_id(),
        group: uniq_id(),
        node_type: blur_node::IDENTIFIER.to_owned(),
        position: Position::new(),
        properties: Vec::new(),
    };

    let edge = Link {
        from: LinkEndpoint { node_id: node1.id.clone(), property: blur_node::OUTPUT_OUTPUT.to_owned() },
        to: LinkEndpoint { node_id: node2.id.clone(), property: blur_node::INPUT_MEDIA.to_owned() },
    };

    let hm = vec![(node1.id.clone(), node1.clone()), (node2.id.clone(), node2.clone())];

    let mut pipeline = Pipeline::new();
    pipeline.links.push(edge);

    let store = Store { nodes: hm, clips: ClipStore::new(), pipeline };

    let mut cache = Cache::new();
    cache.add_to_cache(node1.id.clone(), Vec::new());
    cache.add_to_cache(node2.id.clone(), Vec::new());

    cache.node_modified(&node1.id, &store);
    assert!(cache.get(&node2.id).is_none());
}

#[test]
fn test_cache_2() {
    let node1 = Node {
        id: uniq_id(),
        group: uniq_id(),
        node_type: blur_node::IDENTIFIER.to_owned(),
        position: Position::new(),
        properties: Vec::new(),
    };

    let node2 = Node {
        id: uniq_id(),
        group: uniq_id(),
        node_type: blur_node::IDENTIFIER.to_owned(),
        position: Position::new(),
        properties: Vec::new(),
    };

    let edge = Link {
        from: LinkEndpoint { node_id: node1.id.clone(), property: blur_node::OUTPUT_OUTPUT.to_owned() },
        to: LinkEndpoint { node_id: node2.id.clone(), property: blur_node::INPUT_MEDIA.to_owned() },
    };

    let hm = vec![(node1.id.clone(), node1.clone()), (node2.id.clone(), node2.clone())];

    let mut pipeline = Pipeline::new();
    pipeline.links.push(edge);

    let store = Store { nodes: hm, clips: ClipStore::new(), pipeline };

    let mut cache = Cache::new();
    cache.add_to_cache(node1.id.clone(), Vec::new());
    cache.add_to_cache(node2.id.clone(), Vec::new());

    cache.node_modified(&node2.id, &store);
    assert!(cache.get(&node1.id).is_some());
}

#[test]
fn node_modified_purges_a_chain_and_spares_the_rest() {
    // 1 -> 2 -> 3, and 4 apart
    let ids = [11u128, 12, 13, 14];
    let store = Store {
        nodes: ids.iter().map(|i| (*i, blur(*i))).collect(),
        clips: ClipStore::new(),
        pipeline: Pipeline { links: vec![link(11, 12), link(12, 13)] },
    };
    let mut cache = Cache::new();
    for i in ids.iter() {
        cache.add_to_cache(*i, vec![("output".to_owned(), 100 + *i)]);
    }
    cache.node_modified(&12, &store);
    assert!(cache.get(&11).is_some());
    assert!(cache.get(&12).is_none());
    assert!(cache.get(&13).is_none());
    assert_eq!(cache.get(&14).unwrap()[0].1, 114);
}

#[test]
fn node_modified_follows_a_cycle_without_looping() {
    let store = Store {
        nodes: vec![(1, blur(1)), (2, blur(2)), (3, blur(3))],
        clips: ClipStore::new(),
        pipeline: Pipeline { links: vec![link(1, 2), link(2, 1)] },
    };
    let mut cache = Cache::new();
    cache.add_to_cache(1, Vec::new());
    cache.add_to_cache(2, Vec::new());
    cache.add_to_cache(3, Vec::new());
    cache.node_modified(&2, &store);
    assert!(cache.get(&1).is_none());
    assert!(cache.get(&2).is_none());
    assert!(cache.get(&3).is_some());
}

#[test]
fn node_modified_leaves_cache_when_graph_fails() {
    // a link to a node that does not exist makes the graph fail
    let store = Store {
        nodes: vec![(1, blur(1))],
        clips: ClipStore::new(),
        pipeline: Pipeline { links: vec![link(1, 99)] },
    };
    let mut cache = Cache::new();
    cache.add_to_cache(1, Vec::new());
    cache.node_modified(&1, &store);
    assert!(cache.get(&1).is_some());
}

#[test]
fn clip_modified_purges_importers_and_downstream() {
    let clip = ClipIdentifier { id: 500, clip_type: ClipType::Composited };
    let other = ClipIdentifier { id: 501, clip_type: ClipType::Composited };
    let mut import_a = blur(1);
    import_a.node_type = media_import_node::IDENTIFIER.to_owned();
    import_a.properties.push(("clip".to_owned(), PropertyValue::Clip(clip)));
    let mut import_b = blur(2);
    import_b.node_type = media_import_node::IDENTIFIER.to_owned();
    import_b.properties.push(("clip".to_owned(), PropertyValue::Clip(other)));
    let mut out_a = blur(5);
    out_a.node_type = output_node::IDENTIFIER.to_owned();
    out_a.properties.push(("clip".to_owned(), PropertyValue::Clip(clip)));
    let mut out_b = blur(6);
    out_b.node_type = output_node::IDENTIFIER.to_owned();
    out_b.properties.push(("clip".to_owned(), PropertyValue::Clip(other)));
    let mut clips = ClipStore::new();
    clips.composited.push((500, CompositedClip { id: 500, name: "a".to_owned() }));
    clips.composited.push((501, CompositedClip { id: 501, name: "b".to_owned() }));
    let store = Store {
        nodes: vec![(1, import_a), (2, import_b), (3, blur(3)), (4, blur(4)), (5, out_a), (6, out_b)],
        clips,
        pipeline: Pipeline { links: vec![link(1, 3), link(2, 4)] },
    };
    let mut cache = Cache::new();
    for i in 1..=6u128 {
        cache.add_to_cache(i, Vec::new());
    }
    cache.clip_modified(&500, ClipType::Composited, &store);
    assert!(cache.get(&1).is_none());
    assert!(cache.get(&3).is_none());
    assert!(cache.get(&2).is_some());
    assert!(cache.get(&4).is_some());
    assert!(cache.get(&5).is_some());
    // the same id as a source clip names no importer
    cache.clip_modified(&501, ClipType::Source, &store);
    assert!(cache.get(&2).is_some());
}

#[test]
fn add_to_cache_replaces_and_clear_forgets() {
    let mut cache = Cache::new();
    cache.add_to_cache(7, vec![("output".to_owned(), 1)]);
    cache.add_to_cache(7, vec![("output".to_owned(), 2)]);
    assert_eq!(cache.cache_data.len(), 1);
    assert_eq!(cache.get(&7).unwrap()[0].1, 2);
    cache.clear(&7);
    assert!(cache.get(&7).is_none());
    assert!(cache.cache_data.is_empty());
}

#[test]
fn fresh_ids_are_version_four_uuids() {
    let a = uniq_id();
    let b = uniq_id();
    assert_eq!((a >> 76) & 0xf, 4);
    assert_eq!((a >> 62) & 3, 2);
    assert_eq!((b >> 76) & 0xf, 4);
    assert_eq!((b >> 62) & 3, 2);
}
