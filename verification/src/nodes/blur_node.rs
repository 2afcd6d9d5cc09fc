//! The node that blurs the video of a media.
use vstd::prelude::*;
use crate::ID;
use crate::assoc::{named_get, spec_named_get, named_view};
use crate::node::{
    NodeTypeOutput, PipeableType, PipedType, PipedTypeV, PropertyValue, outputs_view, spec_single_output,
    spec_max_pipeable, single_output,
};
use crate::store::Store;

verus! {

/// The node type's identifier.
pub const IDENTIFIER: &'static str = "blur";
/// The media to blur.
pub const INPUT_MEDIA: &'static str = "media";
/// How strongly to blur.
pub const INPUT_SIGMA: &'static str = "sigma";
/// The blurred media.
pub const OUTPUT_OUTPUT: &'static str = "output";

/// The stream type of the blurred media: that of the media piped in, or every
/// type without bound.
pub open spec fn spec_blur_type(piped_inputs: Seq<(Seq<char>, PipedTypeV)>) -> PipeableType {
    match spec_named_get(piped_inputs, INPUT_MEDIA@) {
        Some(p) => p.stream_type,
        None => spec_max_pipeable(),
    }
}

/// The outputs of a blur node: one output `output` of the type of the media
/// piped in.
pub fn get_io(
    node_id: ID,
    properties: &Vec<(String, PropertyValue)>,
    piped_inputs: &Vec<(String, PipedType)>,
    composited_clip_types: &Vec<(ID, PipedType)>,
    store: &Store,
) -> (r: Result<Vec<NodeTypeOutput>, String>)
    ensures
        r matches Ok(o) && outputs_view(o@) == spec_single_output("The blurred media"@, spec_blur_type(named_view(piped_inputs@))),
{
    let mut stream_type = PipeableType { video: i32::MAX, audio: i32::MAX, subtitles: i32::MAX };
    if let Some(p) = named_get(piped_inputs, INPUT_MEDIA) {
        stream_type = p.stream_type;
    }
    Ok(single_output("The blurred media", stream_type))
}

} // verus!
