use cs310_shared::clip::{ClipIdentifier, ClipType, CompositedClip};
use cs310_shared::node::{InputOrOutput, PipeableType, PipedType, PropertyValue};
use cs310_shared::nodes::{self, audio_gain_node, blur_node, concat_node, media_import_node, output_node, volume_node};
use cs310_shared::pipeline::Pipeline;
use cs310_shared::store::{ClipStore, Store};

fn piped(t: PipeableType) -> PipedType {
    PipedType { stream_type: t, node_id: 1, property_name: "output".to_owned(), io: InputOrOutput::Output, cache_id: None }
}

fn empty_store() -> Store {
    Store { nodes: Vec::new(), clips: ClipStore::new(), pipeline: Pipeline::new() }
}

const MAX: PipeableType = PipeableType { video: i32::MAX, audio: i32::MAX, subtitles: i32::MAX };

#[test]
fn concat_takes_the_minimum_of_its_inputs() {
    let store = empty_store();
    let none = concat_node::get_io(1, &Vec::new(), &Vec::new(), &Vec::new(), &store).unwrap();
    assert_eq!(none[0].property_type, MAX);
    let inputs = vec![
        ("media1".to_owned(), piped(PipeableType { video: 1, audio: 2, subtitles: 0 })),
        ("media2".to_owned(), piped(PipeableType { video: 2, audio: 1, subtitles: 3 })),
    ];
    let o = concat_node::get_io(1, &Vec::new(), &inputs, &Vec::new(), &store).unwrap();
    assert_eq!(o.len(), 1);
    assert_eq!(o[0].name, "output");
    assert_eq!(o[0].display_name, "Output");
    assert_eq!(o[0].description, "The concatenation of the two media");
    assert_eq!(o[0].property_type, PipeableType { video: 1, audio: 1, subtitles: 0 });
}

#[test]
fn blur_and_volume_pass_their_input_type() {
    let store = empty_store();
    let t = PipeableType { video: 1, audio: 1, subtitles: 0 };
    let inputs = vec![("media".to_owned(), piped(t))];
    assert_eq!(blur_node::get_io(1, &Vec::new(), &Vec::new(), &Vec::new(), &store).unwrap()[0].property_type, MAX);
    assert_eq!(blur_node::get_io(1, &Vec::new(), &inputs, &Vec::new(), &store).unwrap()[0].property_type, t);
    let one_audio = PipeableType { video: 0, audio: 1, subtitles: 0 };
    assert_eq!(volume_node::get_io(1, &Vec::new(), &Vec::new(), &Vec::new(), &store).unwrap()[0].property_type, one_audio);
    assert_eq!(volume_node::get_io(1, &Vec::new(), &inputs, &Vec::new(), &store).unwrap()[0].property_type, t);
    assert_eq!(audio_gain_node::get_io(1, &Vec::new(), &inputs, &Vec::new(), &store).unwrap()[0].description, "The gained media");
    assert!(output_node::get_io(1, &Vec::new(), &inputs, &Vec::new(), &store).unwrap().is_empty());
}

#[test]
fn media_import_types_and_errors() {
    let store = empty_store();
    let none = media_import_node::get_io(1, &Vec::new(), &Vec::new(), &Vec::new(), &store).unwrap();
    assert_eq!(none[0].property_type, MAX);
    let malformed = vec![("clip".to_owned(), PropertyValue::Other("1".to_owned()))];
    assert_eq!(media_import_node::get_io(1, &malformed, &Vec::new(), &Vec::new(), &store).unwrap_err(), "Clip identifier is malformed");
    let source = vec![("clip".to_owned(), PropertyValue::Clip(ClipIdentifier { id: 4, clip_type: ClipType::Source }))];
    assert_eq!(media_import_node::get_io(1, &source, &Vec::new(), &Vec::new(), &store).unwrap_err(), "Clip ID is invalid");
    let comp = vec![("clip".to_owned(), PropertyValue::Clip(ClipIdentifier { id: 4, clip_type: ClipType::Composited }))];
    assert_eq!(
        media_import_node::get_io(1, &comp, &Vec::new(), &Vec::new(), &store).unwrap_err(),
        "composited Clip type is invalid"
    );
    let t = PipeableType { video: 2, audio: 0, subtitles: 1 };
    let known = vec![(4u128, piped(t))];
    assert_eq!(media_import_node::get_io(1, &comp, &Vec::new(), &known, &store).unwrap()[0].property_type, t);
}

#[test]
fn clip_identifier_and_output_clip() {
    assert_eq!(media_import_node::get_clip_identifier(&Vec::new()).unwrap_err(), "No clip given");
    let malformed = vec![("clip".to_owned(), PropertyValue::Number { json: "1".to_owned(), decimal: "1".to_owned() })];
    assert_eq!(media_import_node::get_clip_identifier(&malformed).unwrap_err(), "Clip identifier is malformed");
    let c = ClipIdentifier { id: 9, clip_type: ClipType::Composited };
    let props = vec![("clip".to_owned(), PropertyValue::Clip(c))];
    assert_eq!(media_import_node::get_clip_identifier(&props).unwrap(), c);
    let mut store = empty_store();
    store.clips.composited.push((9, CompositedClip { id: 9, name: "nine".to_owned() }));
    assert_eq!(output_node::get_clip(&props, &store).unwrap().name, "nine");
    assert_eq!(output_node::get_clip(&Vec::new(), &store).unwrap_err(), "No clip given");
}

#[test]
fn register_dispatches_by_type() {
    let store = empty_store();
    let r = nodes::get_io("audio_gain", 1, &Vec::new(), &Vec::new(), &Vec::new(), &store).unwrap();
    assert_eq!(r[0].property_type, PipeableType { video: 0, audio: 1, subtitles: 0 });
    let r = nodes::get_io("output", 1, &Vec::new(), &Vec::new(), &Vec::new(), &store).unwrap();
    assert!(r.is_empty());
}
