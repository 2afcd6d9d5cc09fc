//! The node that plays two media one after the other.
use vstd::prelude::*;
use crate::ID;
use crate::assoc::{named_get, spec_named_get, named_view};
use crate::node::{
    NodeTypeOutput, PipeableType, PipedType, PipedTypeV, PropertyValue, outputs_view, spec_single_output,
    spec_max_pipeable, spec_pipeable_min, single_output,
};
use crate::store::Store;

verus! {

/// The node type's identifier.
pub const IDENTIFIER: &'static str = "concat";
/// The media played first.
pub const INPUT_MEDIA1: &'static str = "media1";
/// The media played second.
pub const INPUT_MEDIA2: &'static str = "media2";
/// The concatenation.
pub const OUTPUT_OUTPUT: &'static str = "output";

/// The stream type of the concatenation: the type-wise minimum of the media
/// piped in, starting from every type without bound.
pub open spec fn spec_concat_type(piped_inputs: Seq<(Seq<char>, PipedTypeV)>) -> PipeableType {
    let t1 = match spec_named_get(piped_inputs, INPUT_MEDIA1@) {
        Some(p) => spec_pipeable_min(p.stream_type, spec_max_pipeable()),
        None => spec_max_pipeable(),
    };
    match spec_named_get(piped_inputs, INPUT_MEDIA2@) {
        Some(p) => spec_pipeable_min(p.stream_type, t1),
        None => t1,
    }
}

/// The outputs of a concatenation node: one output `output` whose type is the
/// type-wise minimum of the two media piped in.
pub fn get_io(
    node_id: ID,
    properties: &Vec<(String, PropertyValue)>,
    piped_inputs: &Vec<(String, PipedType)>,
    composited_clip_types: &Vec<(ID, PipedType)>,
    store: &Store,
) -> (r: Result<Vec<NodeTypeOutput>, String>)
    ensures
        r matches Ok(o) && outputs_view(o@) == spec_single_output("The concatenation of the two media"@, spec_concat_type(named_view(piped_inputs@))),
{
    let mut stream_type = PipeableType { video: i32::MAX, audio: i32::MAX, subtitles: i32::MAX };
    if let Some(p) = named_get(piped_inputs, INPUT_MEDIA1) {
        stream_type = PipeableType::min(&p.stream_type, &stream_type);
    }
    if let Some(p) = named_get(piped_inputs, INPUT_MEDIA2) {
        stream_type = PipeableType::min(&p.stream_type, &stream_type);
    }
    Ok(single_output("The concatenation of the two media", stream_type))
}

} // verus!
