//! Where the application keeps its files.
use vstd::prelude::*;
use crate::text::cat;

verus! {

/// Length, in seconds, of each chunk of a rendered preview.
pub const CHUNK_LENGTH: u8 = 10;
/// Number of digits in the file name of a preview chunk.
pub const CHUNK_FILENAME_NUMBER_LENGTH: u8 = 6;

/// The settings that initialisation fixes for the whole process: the root
/// directory of the application's data and whether this process is the server.
pub struct Locations {
    pub data_location: String,
    pub is_server: bool,
}

pub open spec fn spec_media_output_location(d: Seq<char>) -> Seq<char> { d + "/output"@ }
pub open spec fn spec_source_files_location(d: Seq<char>) -> Seq<char> { d + "/source"@ }
pub open spec fn spec_store_json_location(d: Seq<char>) -> Seq<char> { d + "/pipeline.json"@ }
pub open spec fn spec_temp_location(d: Seq<char>) -> Seq<char> { d + "/temp"@ }
pub open spec fn spec_projects_location(d: Seq<char>) -> Seq<char> { spec_temp_location(d) + "/projects"@ }
pub open spec fn spec_intermediate_files_location(d: Seq<char>) -> Seq<char> {
    spec_temp_location(d) + "/intermediate"@
}
pub open spec fn spec_composited_clips_projects_location(d: Seq<char>) -> Seq<char> {
    spec_intermediate_files_location(d) + "/composited-clips"@
}

/// The root directory of the application's data.
pub fn data_location(loc: &Locations) -> (r: String)
    ensures
        r@ == loc.data_location@,
{
    loc.data_location.clone()
}

/// The directory that rendered media is written to.
pub fn media_output_location(loc: &Locations) -> (r: String)
    ensures
        r@ == spec_media_output_location(loc.data_location@),
{
    cat(loc.data_location.as_str(), "/output")
}

/// The directory that uploaded source files are kept in.
pub fn source_files_location(loc: &Locations) -> (r: String)
    ensures
        r@ == spec_source_files_location(loc.data_location@),
{
    cat(loc.data_location.as_str(), "/source")
}

/// The file that the store is saved to.
pub fn store_json_location(loc: &Locations) -> (r: String)
    ensures
        r@ == spec_store_json_location(loc.data_location@),
{
    cat(loc.data_location.as_str(), "/pipeline.json")
}

/// The directory for temporary files.
pub fn temp_location(loc: &Locations) -> (r: String)
    ensures
        r@ == spec_temp_location(loc.data_location@),
{
    cat(loc.data_location.as_str(), "/temp")
}

/// The directory for temporary projects.
pub fn projects_location(loc: &Locations) -> (r: String)
    ensures
        r@ == spec_projects_location(loc.data_location@),
{
    let t = temp_location(loc);
    cat(t.as_str(), "/projects")
}

/// The directory for intermediate timeline files.
pub fn intermediate_files_location(loc: &Locations) -> (r: String)
    ensures
        r@ == spec_intermediate_files_location(loc.data_location@),
{
    let t = temp_location(loc);
    cat(t.as_str(), "/intermediate")
}

/// The directory for the timeline files of composited clips.
pub fn composited_clips_projects_location(loc: &Locations) -> (r: String)
    ensures
        r@ == spec_composited_clips_projects_location(loc.data_location@),
{
    let t = intermediate_files_location(loc);
    cat(t.as_str(), "/composited-clips")
}

/// Whether this process is the server.
pub fn is_server(loc: &Locations) -> (r: bool)
    ensures
        r == loc.is_server,
{
    loc.is_server
}

/// The client's data root: the `AdamSmith\VideoEditor` directory under the
/// user's data directory `data_dir`.
#[allow(non_snake_case)]
pub fn APPLICATION_DATA_ROOT(data_dir: &str) -> (r: String)
    ensures
        r@ == data_dir@ + "\\AdamSmith\\VideoEditor"@,
{
    cat(data_dir, "\\AdamSmith\\VideoEditor")
}

/// The directory, under the client's data root, that rendered media goes to.
#[allow(non_snake_case)]
pub fn APPLICATION_MEDIA_OUTPUT(data_root: &str) -> (r: String)
    ensures
        r@ == data_root@ + "\\output"@,
{
    cat(data_root, "\\output")
}

/// The file, under the client's data root, that the store is saved to.
#[allow(non_snake_case)]
pub fn APPLICATION_JSON_PATH(data_root: &str) -> (r: String)
    ensures
        r@ == data_root@ + "\\pipeline.json"@,
{
    cat(data_root, "\\pipeline.json")
}

} // verus!
