//! The node that raises or lowers the volume of a media by a gain.
use vstd::prelude::*;
use crate::ID;
use crate::assoc::{named_get, spec_named_get, named_view};
use crate::node::{
    NodeTypeOutput, PipeableType, PipedType, PipedTypeV, PropertyValue, outputs_view, spec_single_output, single_output,
};
use crate::store::Store;

verus! {

/// The node type's identifier.
pub const IDENTIFIER: &'static str = "audio_gain";
/// The media whose volume changes.
pub const INPUT_MEDIA: &'static str = "media";
/// The amount of the change.
pub const INPUT_GAIN: &'static str = "gain";
/// The media with its volume changed.
pub const OUTPUT_OUTPUT: &'static str = "output";

/// The stream type of the output: that of the media piped in, or one audio
/// stream.
pub open spec fn spec_gain_type(piped_inputs: Seq<(Seq<char>, PipedTypeV)>) -> PipeableType {
    match spec_named_get(piped_inputs, INPUT_MEDIA@) {
        Some(p) => p.stream_type,
        None => PipeableType { video: 0, audio: 1, subtitles: 0 },
    }
}

/// The outputs of the node: one output `output` of the type of the media piped
/// in (one audio stream when none is).
pub fn get_io(
    node_id: ID,
    properties: &Vec<(String, PropertyValue)>,
    piped_inputs: &Vec<(String, PipedType)>,
    composited_clip_types: &Vec<(ID, PipedType)>,
    store: &Store,
) -> (r: Result<Vec<NodeTypeOutput>, String>)
    ensures
        r matches Ok(o) && outputs_view(o@) == spec_single_output("The gained media"@, spec_gain_type(named_view(piped_inputs@))),
{
    let mut stream_type = PipeableType { video: 0, audio: 1, subtitles: 0 };
    if let Some(p) = named_get(piped_inputs, INPUT_MEDIA) {
        stream_type = p.stream_type;
    }
    Ok(single_output("The gained media", stream_type))
}

} // verus!
