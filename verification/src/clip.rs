//! Clips: source media uploaded by a user and composited media produced by a pipeline.
use vstd::prelude::*;
use crate::ID;
use crate::constants::{
    Locations, CHUNK_FILENAME_NUMBER_LENGTH, is_server, source_files_location, spec_source_files_location,
    media_output_location, spec_media_output_location, composited_clips_projects_location,
    spec_composited_clips_projects_location,
};
use crate::global::{id_to_string, uuid_hyphenated};
use crate::node::{PipeableType, PipeableStreamType, spec_stream_name};
use crate::text::{cat, cat3, replace_backslashes, slashes_forward, u64_to_string, i32_to_string, nat_decimal, int_decimal};

verus! {

/// Which of the two kinds of clip an identifier refers to.
#[derive(PartialEq, Eq, Structural, Clone, Copy, Debug)]
pub enum ClipType {
    Source,
    Composited,
}

/// The code a clip type is sent as: 0 for a source clip, 1 for a composited
/// clip.
pub open spec fn spec_clip_type_code(t: ClipType) -> u8 {
    match t {
        ClipType::Source => 0u8,
        ClipType::Composited => 1u8,
    }
}

/// The clip type sent as code `b`, if `b` is one.
pub open spec fn spec_clip_type_of(b: u8) -> Option<ClipType> {
    if b == 0 {
        Some(ClipType::Source)
    } else if b == 1 {
        Some(ClipType::Composited)
    } else {
        None
    }
}

impl ClipType {
    /// The code this clip type is sent as.
    pub fn to_u8(&self) -> (r: u8)
        ensures
            r == spec_clip_type_code(*self),
    {
        match self {
            ClipType::Source => 0,
            ClipType::Composited => 1,
        }
    }

    /// The clip type sent as code `b`, if `b` is one.
    pub fn from_u8(b: u8) -> (r: Option<ClipType>)
        ensures
            r == spec_clip_type_of(b),
    {
        if b == 0 {
            Some(ClipType::Source)
        } else if b == 1 {
            Some(ClipType::Composited)
        } else {
            None
        }
    }
}

/// Decoding a clip type's code gives the clip type back, and a code decodes
/// only to the clip type sent as it.
pub proof fn law_clip_type_code_roundtrip(t: ClipType, b: u8)
    ensures
        spec_clip_type_of(spec_clip_type_code(t)) == Some(t),
        spec_clip_type_of(b) matches Some(u) ==> spec_clip_type_code(u) == b,
{
}

/// A reference to a clip of the store.
#[derive(PartialEq, Eq, Structural, Clone, Copy, Debug)]
pub struct ClipIdentifier {
    pub id: ID,
    pub clip_type: ClipType,
}

/// Metadata of a video stream. The frame rate is held as the bits of its
/// IEEE 754 double value.
#[derive(Debug)]
pub struct VideoStreamInfo {
    pub width: u32,
    pub height: u32,
    pub framerate_bits: u64,
    pub bitrate: u32,
}

/// Metadata of an audio stream.
#[derive(Debug)]
pub struct AudioStreamInfo {
    pub sample_rate: u32,
    pub number_of_channels: u32,
    pub bitrate: u32,
    pub language: String,
}

/// Metadata of a subtitle stream.
#[derive(Debug)]
pub struct SubtitleStreamInfo {
    pub language: String,
}

/// Metadata of a clip: its duration and its streams.
#[derive(Debug)]
pub struct ClipInfo {
    pub duration: u64,
    pub video_streams: Vec<VideoStreamInfo>,
    pub audio_streams: Vec<AudioStreamInfo>,
    pub subtitle_streams: Vec<SubtitleStreamInfo>,
}

impl Clone for VideoStreamInfo {
    fn clone(&self) -> (r: Self)
        ensures
            r == *self,
    {
        VideoStreamInfo { width: self.width, height: self.height, framerate_bits: self.framerate_bits, bitrate: self.bitrate }
    }
}

impl Clone for AudioStreamInfo {
    fn clone(&self) -> (r: Self)
        ensures
            r == *self,
    {
        AudioStreamInfo {
            sample_rate: self.sample_rate,
            number_of_channels: self.number_of_channels,
            bitrate: self.bitrate,
            language: self.language.clone(),
        }
    }
}

impl Clone for SubtitleStreamInfo {
    fn clone(&self) -> (r: Self)
        ensures
            r == *self,
    {
        SubtitleStreamInfo { language: self.language.clone() }
    }
}

/// The value of a clip's metadata.
pub struct ClipInfoV {
    pub duration: u64,
    pub video_streams: Seq<VideoStreamInfo>,
    pub audio_streams: Seq<AudioStreamInfo>,
    pub subtitle_streams: Seq<SubtitleStreamInfo>,
}

impl View for ClipInfo {
    type V = ClipInfoV;

    open spec fn view(&self) -> ClipInfoV {
        ClipInfoV {
            duration: self.duration,
            video_streams: self.video_streams@,
            audio_streams: self.audio_streams@,
            subtitle_streams: self.subtitle_streams@,
        }
    }
}

impl Clone for ClipInfo {
    fn clone(&self) -> (r: Self)
        ensures
            r@ == self@,
    {
        let v = self.video_streams.clone();
        let a = self.audio_streams.clone();
        let s = self.subtitle_streams.clone();
        assert(v@ =~= self.video_streams@);
        assert(a@ =~= self.audio_streams@);
        assert(s@ =~= self.subtitle_streams@);
        ClipInfo { duration: self.duration, video_streams: v, audio_streams: a, subtitle_streams: s }
    }
}

pub open spec fn spec_to_pipeable_type(info: ClipInfoV) -> PipeableType {
    PipeableType {
        video: info.video_streams.len() as i32,
        audio: info.audio_streams.len() as i32,
        subtitles: info.subtitle_streams.len() as i32,
    }
}

impl ClipInfo {
    /// The number of streams of each type.
    pub fn to_pipeable_type(&self) -> (r: PipeableType)
        ensures
            r == spec_to_pipeable_type(self@),
    {
        PipeableType {
            video: self.video_streams.len() as i32,
            audio: self.audio_streams.len() as i32,
            subtitles: self.subtitle_streams.len() as i32,
        }
    }
}

/// Where the file of a source clip is, as far as the server knows.
#[derive(PartialEq, Eq, Structural, Clone, Copy, Debug)]
pub enum SourceClipServerStatus {
    NeedsNewID,
    LocalOnly,
    Uploading,
    Uploaded,
}

/// A clip made from a media file.
#[derive(Debug)]
pub struct SourceClip {
    pub id: ID,
    pub name: String,
    pub status: SourceClipServerStatus,
    pub info: Option<ClipInfo>,
    pub original_file_location: Option<String>,
    pub file_location: Option<String>,
    pub original_device_id: Option<ID>,
    pub thumbnail_location: Option<String>,
}

fn clone_opt_string(s: &Option<String>) -> (r: Option<String>)
    ensures
        r == *s,
{
    match s {
        Some(x) => Some(x.clone()),
        None => None,
    }
}

/// The value of a source clip.
pub struct SourceClipV {
    pub id: ID,
    pub name: Seq<char>,
    pub status: SourceClipServerStatus,
    pub info: Option<ClipInfoV>,
    pub original_file_location: Option<Seq<char>>,
    pub file_location: Option<Seq<char>>,
    pub original_device_id: Option<ID>,
    pub thumbnail_location: Option<Seq<char>>,
}

pub open spec fn opt_view(s: Option<String>) -> Option<Seq<char>> {
    match s {
        Some(x) => Some(x@),
        None => None,
    }
}

impl View for SourceClip {
    type V = SourceClipV;

    open spec fn view(&self) -> SourceClipV {
        SourceClipV {
            id: self.id,
            name: self.name@,
            status: self.status,
            info: match self.info {
                Some(i) => Some(i@),
                None => None,
            },
            original_file_location: opt_view(self.original_file_location),
            file_location: opt_view(self.file_location),
            original_device_id: self.original_device_id,
            thumbnail_location: opt_view(self.thumbnail_location),
        }
    }
}

impl Clone for SourceClip {
    fn clone(&self) -> (r: Self)
        ensures
            r@ == self@,
    {
        let info = match &self.info {
            Some(i) => Some(i.clone()),
            None => None,
        };
        SourceClip {
            id: self.id,
            name: self.name.clone(),
            status: self.status,
            info,
            original_file_location: clone_opt_string(&self.original_file_location),
            file_location: clone_opt_string(&self.file_location),
            original_device_id: self.original_device_id,
            thumbnail_location: clone_opt_string(&self.thumbnail_location),
        }
    }
}

pub open spec fn spec_source_clip_type(c: SourceClipV) -> PipeableType {
    match c.info {
        Some(info) => spec_to_pipeable_type(info),
        None => PipeableType { video: -1i32, audio: -1i32, subtitles: -1i32 },
    }
}

pub open spec fn spec_server_url(loc: Locations, c: SourceClipV) -> Seq<char> {
    slashes_forward(
        if loc.is_server {
            "file:///"@ + spec_source_files_location(loc.data_location@) + "/"@ + uuid_hyphenated(c.id)
        } else {
            "file:///"@ + c.file_location->0
        },
    )
}

pub open spec fn spec_gstreamer_id(prefix: Seq<char>, id: ID, t: PipeableStreamType, index: i32) -> Seq<char> {
    prefix + uuid_hyphenated(id) + "-"@ + spec_stream_name(t) + "-"@ + int_decimal(index as int)
}

fn gstreamer_id(prefix: &str, id: ID, stream_type: &PipeableStreamType, index: i32) -> (r: String)
    ensures
        r@ == spec_gstreamer_id(prefix@, id, *stream_type, index),
{
    let i = id_to_string(id);
    let t = stream_type.to_string();
    let n = i32_to_string(index);
    let mut s = cat3(prefix, i.as_str(), "-");
    s.append(t.as_str());
    s.append("-");
    s.append(n.as_str());
    s
}

impl SourceClip {
    /// The number of streams of each type, or -1 for each when the clip's
    /// metadata is not known.
    pub fn get_clip_type(&self) -> (r: PipeableType)
        ensures
            r == spec_source_clip_type(self@),
    {
        match &self.info {
            Some(info) => info.to_pipeable_type(),
            None => PipeableType { video: -1, audio: -1, subtitles: -1 },
        }
    }

    /// The URI of the clip's file: on the server the uploaded copy, on a client
    /// the file it was imported from.
    pub fn get_server_url(&self, loc: &Locations) -> (r: String)
        requires
            loc.is_server || self.file_location is Some,
        ensures
            r@ == spec_server_url(*loc, self@),
    {
        let s = if is_server(loc) {
            let base = source_files_location(loc);
            let id = id_to_string(self.id);
            let mut s = cat3("file:///", base.as_str(), "/");
            s.append(id.as_str());
            s
        } else {
            match &self.file_location {
                Some(f) => cat("file:///", f.as_str()),
                None => cat("file:///", ""),
            }
        };
        replace_backslashes(s.as_str())
    }

    /// The name of the GStreamer element for the `index`-th stream of a type.
    pub fn get_gstreamer_id(&self, stream_type: &PipeableStreamType, index: i32) -> (r: String)
        ensures
            r@ == spec_gstreamer_id("source-clip-"@, self.id, *stream_type, index),
    {
        gstreamer_id("source-clip-", self.id, stream_type, index)
    }
}

/// A clip rendered from the graph.
#[derive(Debug)]
pub struct CompositedClip {
    pub id: ID,
    pub name: String,
}

impl Clone for CompositedClip {
    fn clone(&self) -> (r: Self)
        ensures
            r == *self,
    {
        CompositedClip { id: self.id, name: self.name.clone() }
    }
}

pub open spec fn spec_output_location(loc: Locations, c: CompositedClip) -> Seq<char> {
    slashes_forward(spec_media_output_location(loc.data_location@) + "/composited-clip-"@ + uuid_hyphenated(c.id))
}

impl CompositedClip {
    /// The directory the clip's chunks are written to.
    pub fn get_output_location(&self, loc: &Locations) -> (r: String)
        ensures
            r@ == spec_output_location(*loc, *self),
    {
        let base = media_output_location(loc);
        let id = id_to_string(self.id);
        let s = cat3(base.as_str(), "/composited-clip-", id.as_str());
        replace_backslashes(s.as_str())
    }

    /// The file-name template GStreamer splits the clip into chunks with.
    pub fn get_output_location_template(&self, loc: &Locations) -> (r: String)
        ensures
            r@ == spec_output_location(*loc, *self) + "/segment%0"@ + nat_decimal(CHUNK_FILENAME_NUMBER_LENGTH as nat) + "d.ts"@,
    {
        let base = self.get_output_location(loc);
        let n = u64_to_string(CHUNK_FILENAME_NUMBER_LENGTH as u64);
        let mut s = cat3(base.as_str(), "/segment%0", n.as_str());
        s.append("d.ts");
        s
    }

    /// The URI of the clip's timeline file; only the server has one.
    pub fn get_location(&self, loc: &Locations) -> (r: String)
        requires
            loc.is_server,
        ensures
            r@ == slashes_forward("file:///"@ + spec_composited_clips_projects_location(loc.data_location@) + "/"@
                + uuid_hyphenated(self.id) + ".xges"@),
    {
        let base = composited_clips_projects_location(loc);
        let id = id_to_string(self.id);
        let mut s = cat3("file:///", base.as_str(), "/");
        s.append(id.as_str());
        s.append(".xges");
        replace_backslashes(s.as_str())
    }

    /// The name of the GStreamer element for the `index`-th stream of a type.
    pub fn get_gstreamer_id(&self, stream_type: &PipeableStreamType, index: i32) -> (r: String)
        ensures
            r@ == spec_gstreamer_id("composited-clip-"@, self.id, *stream_type, index),
    {
        gstreamer_id("composited-clip-", self.id, stream_type, index)
    }
}

} // verus!
