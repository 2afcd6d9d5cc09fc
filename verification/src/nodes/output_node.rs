//! The node that renders its input into a composited clip.
use vstd::prelude::*;
use crate::ID;
use crate::assoc::{has_key, assoc_get, id_index};
use crate::clip::CompositedClip;
use crate::node::{NodeTypeOutput, PipedType, PropertyValue, PropertyValueV, props_view, get_property, spec_prop_get};
use crate::store::Store;
use crate::text::owned;

verus! {

/// The node type's identifier.
pub const IDENTIFIER: &'static str = "output";
/// The input to render.
pub const INPUT_MEDIA: &'static str = "media";
/// The property holding the composited clip to render into.
pub const INPUT_CLIP: &'static str = "clip";

/// The outputs of an output node: none.
pub fn get_io(
    node_id: ID,
    properties: &Vec<(String, PropertyValue)>,
    piped_inputs: &Vec<(String, PipedType)>,
    composited_clip_types: &Vec<(ID, PipedType)>,
    store: &Store,
) -> (r: Result<Vec<NodeTypeOutput>, String>)
    ensures
        r matches Ok(o) && o@.len() == 0,
{
    Ok(Vec::new())
}

/// The node's `clip` property names a composited clip of the store, if it is
/// set.
pub open spec fn spec_clip_valid(properties: Seq<(Seq<char>, PropertyValueV)>, composited: Seq<(ID, CompositedClip)>) -> bool {
    match spec_prop_get(properties, INPUT_CLIP@) {
        None => true,
        Some(PropertyValueV::Clip(c)) => has_key(composited, c.id),
        Some(_) => false,
    }
}

/// The composited clip the node renders into, as the store holds it; an
/// error when the `clip` property is missing. A `clip` property that does not
/// name a composited clip of the store is outside `requires`.
pub fn get_clip(properties: &Vec<(String, PropertyValue)>, store: &Store) -> (r: Result<CompositedClip, String>)
    requires
        spec_clip_valid(props_view(properties@), store@.composited),
    ensures
        match spec_prop_get(props_view(properties@), INPUT_CLIP@) {
            Some(PropertyValueV::Clip(c)) => r == Ok::<CompositedClip, String>(assoc_get(store@.composited, c.id)),
            _ => r matches Err(m) && m@ == "No clip given"@,
        },
{
    match get_property(properties, INPUT_CLIP) {
        Some(PropertyValue::Clip(c)) => {
            match id_index(&store.clips.composited, c.id) {
                Some(i) => {
                    assert(store@.composited =~= crate::assoc::id_map_view(store.clips.composited@));
                    Ok(store.clips.composited[i].1.clone())
                },
                None => {
                    assert(store@.composited =~= crate::assoc::id_map_view(store.clips.composited@));
                    Err(owned("No clip given"))
                },
            }
        },
        _ => Err(owned("No clip given")),
    }
}

} // verus!
