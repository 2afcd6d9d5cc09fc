use cs310_shared::clip::{ClipIdentifier, ClipType, CompositedClip, SourceClip, SourceClipServerStatus};
use cs310_shared::node::{Node, Position, PropertyValue};
use cs310_shared::nodes::{blur_node, output_node};
use cs310_shared::pipeline::{Link, LinkEndpoint, Pipeline};
use cs310_shared::store::{ClipStore, Store};
use cs310_shared::task::{ClipData, NetworkTask, Task};

fn node(id: u128) -> Node {
    Node { id, group: 0, node_type: blur_node::IDENTIFIER.to_owned(), position: Position::new(), properties: Vec::new() }
}

fn link(from: u128, fp: &str, to: u128, tp: &str) -> Link {
    Link {
        from: LinkEndpoint { node_id: from, property: fp.to_owned() },
        to: LinkEndpoint { node_id: to, property: tp.to_owned() },
    }
}

fn source(id: u128, name: &str) -> SourceClip {
    SourceClip {
        id,
        name: name.to_owned(),
        status: SourceClipServerStatus::LocalOnly,
        info: None,
        original_file_location: None,
        file_location: None,
        original_device_id: None,
        thumbnail_location: None,
    }
}

fn empty_store() -> Store {
    Store { nodes: Vec::new(), clips: ClipStore::new(), pipeline: Pipeline::new() }
}

#[test]
fn add_node_then_update_node() {
    let mut store = empty_store();
    let jobs = Task::apply_tasks(&mut store, vec![Task::AddNode(node(1))]);
    assert!(matches!(jobs[..], [NetworkTask::GetNodeID(1)]));
    assert_eq!(store.nodes.len(), 1);
    let mut moved = node(1);
    moved.position.x = 5;
    let jobs = Task::apply_tasks(&mut store, vec![Task::UpdateNode(1, moved)]);
    assert!(matches!(jobs[..], [NetworkTask::UpdateNode(1)]));
    assert_eq!(store.nodes[0].1.position.x, 5);
}

#[test]
fn update_of_unknown_node_changes_nothing() {
    let mut store = empty_store();
    let jobs = Task::apply_tasks(&mut store, vec![Task::UpdateNode(9, node(9))]);
    assert!(jobs.is_empty());
    assert!(store.nodes.is_empty());
}

#[test]
fn add_link_replaces_the_link_into_the_same_input() {
    let mut store = empty_store();
    Task::apply_tasks(&mut store, vec![Task::AddNode(node(1)), Task::AddNode(node(2)), Task::AddNode(node(3))]);
    let jobs = Task::apply_tasks(
        &mut store,
        vec![Task::AddLink(link(1, "output", 3, "media")), Task::AddLink(link(2, "output", 3, "media"))],
    );
    assert_eq!(jobs.len(), 2);
    assert_eq!(store.pipeline.links.len(), 1);
    assert_eq!(store.pipeline.links[0].from.node_id, 2);
}

#[test]
fn delete_links_with_a_property_drops_only_the_links_at_that_property_of_the_node() {
    let mut store = empty_store();
    store.pipeline.links = vec![
        link(1, "output", 3, "media1"),
        link(2, "output", 4, "media2"),
        link(2, "output", 5, "media1"),
        link(3, "output", 6, "other"),
        link(3, "output", 7, "media1"),
    ];
    let jobs = Task::apply_tasks(&mut store, vec![Task::DeleteLinks(3, Some("media1".to_owned()))]);
    assert!(matches!(jobs[..], [NetworkTask::DeleteLinks(3, Some(_))]));
    let left: Vec<(u128, u128)> = store.pipeline.links.iter().map(|l| (l.from.node_id, l.to.node_id)).collect();
    assert_eq!(left, vec![(2, 4), (2, 5), (3, 6), (3, 7)]);
    // the output side counts too
    Task::apply_tasks(&mut store, vec![Task::DeleteLinks(3, Some("output".to_owned()))]);
    let left: Vec<(u128, u128)> = store.pipeline.links.iter().map(|l| (l.from.node_id, l.to.node_id)).collect();
    assert_eq!(left, vec![(2, 4), (2, 5)]);
    // with no property, every link at either end of the node goes
    let jobs = Task::apply_tasks(&mut store, vec![Task::DeleteLinks(2, None)]);
    assert_eq!(jobs.len(), 1);
    assert!(store.pipeline.links.is_empty());
}

#[test]
fn delete_node_drops_its_links() {
    let mut store = empty_store();
    Task::apply_tasks(&mut store, vec![Task::AddNode(node(1)), Task::AddNode(node(2)), Task::AddNode(node(3))]);
    store.pipeline.links = vec![link(1, "output", 2, "media"), link(2, "output", 3, "media"), link(1, "output", 3, "media2")];
    let jobs = Task::apply_tasks(&mut store, vec![Task::DeleteNode(2)]);
    assert!(matches!(jobs[..], [NetworkTask::DeleteNode(2)]));
    assert_eq!(store.nodes.iter().map(|e| e.0).collect::<Vec<_>>(), vec![1, 3]);
    assert_eq!(store.pipeline.links.len(), 1);
    assert_eq!(store.pipeline.links[0].to.property, "media2");
}

#[test]
fn create_composited_clip_adds_an_output_node() {
    let mut store = empty_store();
    let jobs = Task::apply_tasks(&mut store, vec![Task::CreateCompositedClip(CompositedClip { id: 50, name: "c".to_owned() })]);
    assert!(matches!(jobs[..], [NetworkTask::GetCompositedClipID(50)]));
    assert_eq!(store.clips.composited.len(), 1);
    assert_eq!(store.nodes.len(), 1);
    let (key, n) = &store.nodes[0];
    assert_eq!(*key, n.id);
    assert_eq!(n.node_type, output_node::IDENTIFIER);
    assert_eq!(n.properties.len(), 1);
    assert_eq!(n.properties[0].0, "clip");
    assert!(matches!(
        n.properties[0].1,
        PropertyValue::Clip(ClipIdentifier { id: 50, clip_type: ClipType::Composited })
    ));
}

#[test]
fn apply_task_uses_the_given_ids() {
    let mut store = empty_store();
    let job = Task::apply_task(&mut store, Task::CreateCompositedClip(CompositedClip { id: 8, name: "c".to_owned() }), 77, 88);
    assert!(matches!(job, Some(NetworkTask::GetCompositedClipID(8))));
    assert_eq!(store.nodes[0].0, 77);
    assert_eq!(store.nodes[0].1.group, 88);
    assert_eq!(store.nodes[0].1.position.x, 0);
}

#[test]
fn update_clip_replaces_an_existing_clip_only() {
    let mut store = empty_store();
    Task::apply_tasks(&mut store, vec![Task::CreateSourceClip(source(10, "a"))]);
    let jobs = Task::apply_tasks(
        &mut store,
        vec![
            Task::UpdateClip(10, ClipType::Source, ClipData::Source(source(999, "renamed"))),
            Task::UpdateClip(11, ClipType::Source, ClipData::Source(source(11, "missing"))),
            Task::UpdateClip(10, ClipType::Source, ClipData::Malformed("{}".to_owned())),
        ],
    );
    assert!(matches!(jobs[..], [NetworkTask::UpdateClip(10, ClipType::Source)]));
    assert_eq!(store.clips.source.len(), 1);
    assert_eq!(store.clips.source[0].1.name, "renamed");
    assert_eq!(store.clips.source[0].1.id, 10);
}
