//! The node that brings a source or composited clip into the graph.
use vstd::prelude::*;
use crate::ID;
use crate::assoc::{has_key, assoc_get, id_map_view, id_index, named_view};
use crate::clip::{ClipIdentifier, ClipType, spec_source_clip_type};
use crate::node::{
    NodeTypeOutput, PipeableType, PipedType, PipedTypeV, PropertyValue, PropertyValueV, props_view, get_property, spec_prop_get, outputs_view,
    spec_single_output, spec_max_pipeable, single_output,
};
use crate::store::Store;
use crate::text::owned;

verus! {

/// The node type's identifier.
pub const IDENTIFIER: &'static str = "clip_import";
/// The property holding the clip to import.
pub const INPUT_CLIP: &'static str = "clip";
/// The output carrying the clip.
pub const OUTPUT_OUTPUT: &'static str = "output";

/// The clip named by the node's `clip` property, or why there is none.
pub open spec fn spec_clip_identifier(properties: Seq<(Seq<char>, PropertyValueV)>) -> Result<ClipIdentifier, Seq<char>> {
    match spec_prop_get(properties, INPUT_CLIP@) {
        None => Err("No clip given"@),
        Some(PropertyValueV::Clip(c)) => Ok(c),
        Some(_) => Err("Clip identifier is malformed"@),
    }
}

/// The stream type of the node's output: that of the imported clip, every
/// type without bound when no clip is set, or why it cannot be found.
pub open spec fn spec_import_type(
    properties: Seq<(Seq<char>, PropertyValueV)>,
    composited_clip_types: Seq<(ID, PipedTypeV)>,
    source: Seq<(ID, crate::clip::SourceClipV)>,
) -> Result<PipeableType, Seq<char>> {
    match spec_prop_get(properties, INPUT_CLIP@) {
        None => Ok(spec_max_pipeable()),
        Some(PropertyValueV::Clip(c)) => match c.clip_type {
            ClipType::Source => if has_key(source, c.id) {
                Ok(spec_source_clip_type(assoc_get(source, c.id)))
            } else {
                Err("Clip ID is invalid"@)
            },
            ClipType::Composited => if has_key(composited_clip_types, c.id) {
                Ok(assoc_get(composited_clip_types, c.id).stream_type)
            } else {
                Err("composited Clip type is invalid"@)
            },
        },
        Some(_) => Err("Clip identifier is malformed"@),
    }
}

/// The outputs of a clip import node: one output `output` of the imported
/// clip's stream type (of a source clip in the store, or of a composited clip
/// by the types found so far).
pub fn get_io(
    node_id: ID,
    properties: &Vec<(String, PropertyValue)>,
    piped_inputs: &Vec<(String, PipedType)>,
    composited_clip_types: &Vec<(ID, PipedType)>,
    store: &Store,
) -> (r: Result<Vec<NodeTypeOutput>, String>)
    ensures
        match spec_import_type(props_view(properties@), id_map_view(composited_clip_types@), store@.source) {
            Ok(t) => r matches Ok(o) && outputs_view(o@) == spec_single_output("The clip itself"@, t),
            Err(e) => r matches Err(m) && m@ == e,
        },
{
    match get_property(properties, INPUT_CLIP) {
        None => Ok(single_output("The clip itself", PipeableType { video: i32::MAX, audio: i32::MAX, subtitles: i32::MAX })),
        Some(PropertyValue::Clip(c)) => {
            match c.clip_type {
                ClipType::Source => {
                    match id_index(&store.clips.source, c.id) {
                        None => Err(owned("Clip ID is invalid")),
                        Some(i) => {
                            proof {
                                assert(id_map_view(store.clips.source@)[i as int] == (store.clips.source@[i as int].0, store.clips.source@[i as int].1@));
                            }
                            let t = store.clips.source[i].1.get_clip_type();
                            Ok(single_output("The clip itself", t))
                        },
                    }
                },
                ClipType::Composited => {
                    match id_index(composited_clip_types, c.id) {
                        None => Err(owned("composited Clip type is invalid")),
                        Some(i) => {
                            proof {
                                assert(id_map_view(composited_clip_types@)[i as int] == (composited_clip_types@[i as int].0, composited_clip_types@[i as int].1@));
                            }
                            Ok(single_output("The clip itself", composited_clip_types[i].1.stream_type))
                        },
                    }
                },
            }
        },
        Some(_) => Err(owned("Clip identifier is malformed")),
    }
}

/// The clip named by the node's `clip` property: an error when it is
/// missing or does not hold a clip identifier.
pub fn get_clip_identifier(properties: &Vec<(String, PropertyValue)>) -> (r: Result<ClipIdentifier, String>)
    ensures
        match spec_clip_identifier(props_view(properties@)) {
            Ok(c) => r == Ok::<ClipIdentifier, String>(c),
            Err(e) => r matches Err(m) && m@ == e,
        },
{
    match get_property(properties, INPUT_CLIP) {
        None => Err(owned("No clip given")),
        Some(PropertyValue::Clip(c)) => Ok(*c),
        Some(_) => Err(owned("Clip identifier is malformed")),
    }
}

} // verus!
