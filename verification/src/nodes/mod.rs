//! The kinds of node the editor offers, and the output types each gives.
pub mod media_import_node;
pub mod output_node;
pub mod concat_node;
pub mod blur_node;
pub mod volume_node;
pub mod audio_gain_node;

use vstd::prelude::*;
use crate::ID;
use crate::assoc::{named_view, id_map_view};
use crate::clip::SourceClipV;
use crate::node::{NodeTypeOutput, NodeTypeOutputV, PipedType, PipedTypeV, PropertyValue, PropertyValueV, props_view, outputs_view, spec_single_output};
use crate::store::Store;
use crate::text::str_eq;

verus! {

/// The node types of the register: clip import, output, concatenation, blur
/// and volume (registered under the identifier `audio_gain`).
pub open spec fn spec_registered(node_type: Seq<char>) -> bool {
    ||| node_type == media_import_node::IDENTIFIER@
    ||| node_type == output_node::IDENTIFIER@
    ||| node_type == concat_node::IDENTIFIER@
    ||| node_type == blur_node::IDENTIFIER@
    ||| node_type == volume_node::IDENTIFIER@
}

/// The outputs of a node of a registered type, given its properties, the
/// media piped into it, the types of the composited clips found so far and
/// the source clips of the store; or why they cannot be found.
pub open spec fn spec_node_outputs(
    node_type: Seq<char>,
    properties: Seq<(Seq<char>, PropertyValueV)>,
    piped_inputs: Seq<(Seq<char>, PipedTypeV)>,
    composited_clip_types: Seq<(ID, PipedTypeV)>,
    source: Seq<(ID, SourceClipV)>,
) -> Result<Seq<NodeTypeOutputV>, Seq<char>> {
    if node_type == media_import_node::IDENTIFIER@ {
        match media_import_node::spec_import_type(properties, composited_clip_types, source) {
            Ok(t) => Ok(spec_single_output("The clip itself"@, t)),
            Err(e) => Err(e),
        }
    } else if node_type == output_node::IDENTIFIER@ {
        Ok(Seq::empty())
    } else if node_type == concat_node::IDENTIFIER@ {
        Ok(spec_single_output("The concatenation of the two media"@, concat_node::spec_concat_type(piped_inputs)))
    } else if node_type == blur_node::IDENTIFIER@ {
        Ok(spec_single_output("The blurred media"@, blur_node::spec_blur_type(piped_inputs)))
    } else {
        Ok(spec_single_output("The gained media"@, volume_node::spec_volume_type(piped_inputs)))
    }
}

/// The outputs of a node, by the `get_io` of its type in the register. A type
/// that is not registered is outside `requires`.
pub fn get_io(
    node_type: &str,
    node_id: ID,
    properties: &Vec<(String, PropertyValue)>,
    piped_inputs: &Vec<(String, PipedType)>,
    composited_clip_types: &Vec<(ID, PipedType)>,
    store: &Store,
) -> (r: Result<Vec<NodeTypeOutput>, String>)
    requires
        spec_registered(node_type@),
    ensures
        match spec_node_outputs(node_type@, props_view(properties@), named_view(piped_inputs@), id_map_view(composited_clip_types@), store@.source) {
            Ok(o) => r matches Ok(v) && outputs_view(v@) == o,
            Err(e) => r matches Err(m) && m@ == e,
        },
{
    if str_eq(node_type, media_import_node::IDENTIFIER) {
        media_import_node::get_io(node_id, properties, piped_inputs, composited_clip_types, store)
    } else if str_eq(node_type, output_node::IDENTIFIER) {
        let r = output_node::get_io(node_id, properties, piped_inputs, composited_clip_types, store);
        assert(outputs_view(r->Ok_0@) =~= Seq::<NodeTypeOutputV>::empty());
        r
    } else if str_eq(node_type, concat_node::IDENTIFIER) {
        concat_node::get_io(node_id, properties, piped_inputs, composited_clip_types, store)
    } else if str_eq(node_type, blur_node::IDENTIFIER) {
        blur_node::get_io(node_id, properties, piped_inputs, composited_clip_types, store)
    } else {
        volume_node::get_io(node_id, properties, piped_inputs, composited_clip_types, store)
    }
}

} // verus!
