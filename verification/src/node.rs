//! Nodes of the editing graph and the stream types that flow between them.
use vstd::prelude::*;
use crate::ID;
use crate::clip::ClipIdentifier;
use crate::constants::{Locations, intermediate_files_location, spec_intermediate_files_location};
use crate::global::{uniq_id, id_to_string, uuid_hyphenated};
use crate::text::{str_eq, cat, cat3, owned, replace_backslashes, slashes_forward, i32_to_string, int_decimal};

verus! {

/// Position of a node in the editor.
#[derive(Clone, Copy, Debug)]
pub struct Position {
    pub x: i32,
    pub y: i32,
}

impl Position {
    /// The origin.
    pub fn new() -> (r: Self)
        ensures
            r.x == 0 && r.y == 0,
    {
        Self { x: 0, y: 0 }
    }
}

/// The value of a node's property. A value that decodes as a clip identifier
/// is held decoded; a number is held as its JSON text and as the decimal text
/// of its value as a 64-bit float; any other value is held as its JSON text.
#[derive(Debug)]
pub enum PropertyValue {
    Clip(ClipIdentifier),
    Number { json: String, decimal: String },
    Other(String),
}

impl Clone for PropertyValue {
    fn clone(&self) -> (r: Self)
        ensures
            r == *self,
    {
        match self {
            PropertyValue::Clip(c) => PropertyValue::Clip(*c),
            PropertyValue::Number { json, decimal } => PropertyValue::Number { json: json.clone(), decimal: decimal.clone() },
            PropertyValue::Other(s) => PropertyValue::Other(s.clone()),
        }
    }
}

/// The value of a property, its text taken as such.
pub enum PropertyValueV {
    Clip(ClipIdentifier),
    Number { json: Seq<char>, decimal: Seq<char> },
    Other(Seq<char>),
}

impl View for PropertyValue {
    type V = PropertyValueV;

    open spec fn view(&self) -> PropertyValueV {
        match self {
            PropertyValue::Clip(c) => PropertyValueV::Clip(*c),
            PropertyValue::Number { json, decimal } => PropertyValueV::Number { json: json@, decimal: decimal@ },
            PropertyValue::Other(s) => PropertyValueV::Other(s@),
        }
    }
}

/// The properties of a node, by name, each taken by its value.
pub open spec fn props_view(ps: Seq<(String, PropertyValue)>) -> Seq<(Seq<char>, PropertyValueV)> {
    ps.map_values(|e: (String, PropertyValue)| (e.0@, e.1@))
}

/// A node of the editing graph.
#[derive(Debug)]
pub struct Node {
    pub position: Position,
    pub id: ID,
    pub node_type: String,
    pub properties: Vec<(String, PropertyValue)>,
    pub group: ID,
}

/// The value of a node.
pub struct NodeValue {
    pub position: Position,
    pub id: ID,
    pub node_type: Seq<char>,
    pub properties: Seq<(Seq<char>, PropertyValueV)>,
    pub group: ID,
}

impl View for Node {
    type V = NodeValue;

    open spec fn view(&self) -> NodeValue {
        NodeValue {
            position: self.position,
            id: self.id,
            node_type: self.node_type@,
            properties: props_view(self.properties@),
            group: self.group,
        }
    }
}

/// The value of the last property named `name`, if any.
pub open spec fn spec_prop_get(ps: Seq<(Seq<char>, PropertyValueV)>, name: Seq<char>) -> Option<PropertyValueV>
    decreases ps.len(),
{
    if ps.len() == 0 {
        None
    } else if ps.last().0 == name {
        Some(ps.last().1)
    } else {
        spec_prop_get(ps.drop_last(), name)
    }
}

/// The clip identifier held by the property `name`, if it holds one.
pub open spec fn spec_clip_prop(ps: Seq<(Seq<char>, PropertyValueV)>, name: Seq<char>) -> Option<ClipIdentifier> {
    match spec_prop_get(ps, name) {
        Some(PropertyValueV::Clip(c)) => Some(c),
        _ => None,
    }
}

/// The value of the property `name` (its last entry), if any.
pub fn get_property<'a>(ps: &'a Vec<(String, PropertyValue)>, name: &str) -> (r: Option<&'a PropertyValue>)
    ensures
        match r {
            Some(v) => spec_prop_get(props_view(ps@), name@) == Some(v@),
            None => spec_prop_get(props_view(ps@), name@) is None,
        },
{
    let ghost pv = props_view(ps@);
    let mut i = ps.len();
    assert(pv.take(i as int) =~= pv);
    while i > 0
        invariant
            i <= ps.len(),
            pv == props_view(ps@),
            spec_prop_get(pv, name@) == spec_prop_get(pv.take(i as int), name@),
        decreases i,
    {
        assert(pv.take(i as int).drop_last() =~= pv.take(i - 1));
        assert(pv.take(i as int).last() == (ps@[i - 1].0@, ps@[i - 1].1@));
        if str_eq(ps[i - 1].0.as_str(), name) {
            return Some(&ps[i - 1].1);
        }
        i = i - 1;
    }
    None
}

/// The clip identifier held by the property `name`, if it holds one.
pub fn get_clip_property(ps: &Vec<(String, PropertyValue)>, name: &str) -> (r: Option<ClipIdentifier>)
    ensures
        r == spec_clip_prop(props_view(ps@), name@),
{
    match get_property(ps, name) {
        Some(PropertyValue::Clip(c)) => Some(*c),
        _ => None,
    }
}

fn clone_properties(ps: &Vec<(String, PropertyValue)>) -> (r: Vec<(String, PropertyValue)>)
    ensures
        r@ == ps@,
{
    let mut r: Vec<(String, PropertyValue)> = Vec::new();
    let mut i: usize = 0;
    while i < ps.len()
        invariant
            i <= ps.len(),
            r@ =~= ps@.take(i as int),
        decreases ps.len() - i,
    {
        r.push((ps[i].0.clone(), ps[i].1.clone()));
        i = i + 1;
    }
    assert(ps@.take(ps.len() as int) =~= ps@);
    r
}

impl Clone for Node {
    fn clone(&self) -> (r: Self)
        ensures
            r@ == self@,
    {
        Node {
            position: self.position,
            id: self.id,
            node_type: self.node_type.clone(),
            properties: clone_properties(&self.properties),
            group: self.group,
        }
    }
}

impl Node {
    /// A new node of the given type, with a fresh id, at the origin, with no
    /// properties; its group is the one given, or a fresh one.
    pub fn new(node_type: String, group: Option<ID>) -> (r: Self)
        ensures
            r.node_type@ == node_type@,
            r.position.x == 0 && r.position.y == 0,
            r.properties@ == Seq::<(String, PropertyValue)>::empty(),
            group matches Some(g) ==> r.group == g,
    {
        let group_id = match group {
            None => uniq_id(),
            Some(g) => g,
        };
        Self {
            position: Position::new(),
            id: uniq_id(),
            node_type,
            properties: Vec::new(),
            group: group_id,
        }
    }

    /// The name of the GStreamer element that stands for a node's property.
    pub fn get_gstreamer_handle_id(node_id: String, property: String) -> (r: String)
        ensures
            r@ == node_id@ + "-"@ + property@,
    {
        cat3(node_id.as_str(), "-", property.as_str())
    }
}

/// One of the three kinds of stream.
#[derive(PartialEq, Eq, Structural, Clone, Copy, Debug, Hash)]
pub enum PipeableStreamType {
    Video,
    Audio,
    Subtitles,
}

pub open spec fn spec_stream_name(t: PipeableStreamType) -> Seq<char> {
    match t {
        PipeableStreamType::Video => "video"@,
        PipeableStreamType::Audio => "audio"@,
        PipeableStreamType::Subtitles => "subtitles"@,
    }
}

pub open spec fn spec_stream_linker(t: PipeableStreamType) -> Seq<char> {
    match t {
        PipeableStreamType::Video => "videoconvert"@,
        PipeableStreamType::Audio => "audioconvert"@,
        PipeableStreamType::Subtitles => "subparse"@,
    }
}

impl PipeableStreamType {
    /// The name of the stream type: `video`, `audio` or `subtitles`.
    pub fn to_string(&self) -> (r: String)
        ensures
            r@ == spec_stream_name(*self),
    {
        match self {
            PipeableStreamType::Video => owned("video"),
            PipeableStreamType::Audio => owned("audio"),
            PipeableStreamType::Subtitles => owned("subtitles"),
        }
    }

    /// The GStreamer element that converts a stream of this type.
    pub fn stream_linker(&self) -> (r: String)
        ensures
            r@ == spec_stream_linker(*self),
    {
        match self {
            PipeableStreamType::Video => owned("videoconvert"),
            PipeableStreamType::Audio => owned("audioconvert"),
            PipeableStreamType::Subtitles => owned("subparse"),
        }
    }
}

/// How many streams of each type a piece of media holds.
#[derive(PartialEq, Eq, Structural, Clone, Copy, Debug)]
pub struct PipeableType {
    pub video: i32,
    pub audio: i32,
    pub subtitles: i32,
}

pub open spec fn spec_of_type(p: PipeableType, t: PipeableStreamType) -> i32 {
    match t {
        PipeableStreamType::Video => p.video,
        PipeableStreamType::Audio => p.audio,
        PipeableStreamType::Subtitles => p.subtitles,
    }
}

pub open spec fn min_i32(a: i32, b: i32) -> i32 {
    if a <= b { a } else { b }
}

pub open spec fn spec_pipeable_min(a: PipeableType, b: PipeableType) -> PipeableType {
    PipeableType {
        video: min_i32(a.video, b.video),
        audio: min_i32(a.audio, b.audio),
        subtitles: min_i32(a.subtitles, b.subtitles),
    }
}

/// At most one kind of stream is present.
pub open spec fn spec_is_singular(p: PipeableType) -> bool {
    let v = p.video > 0;
    let a = p.audio > 0;
    let s = p.subtitles > 0;
    !((v && a) || (v && s) || (a && s))
}

fn min_of(a: i32, b: i32) -> (r: i32)
    ensures
        r == min_i32(a, b),
{
    if a <= b { a } else { b }
}

impl PipeableType {
    /// The number of streams of the given type.
    pub fn of_type(&self, stream_type: &PipeableStreamType) -> (r: i32)
        ensures
            r == spec_of_type(*self, *stream_type),
    {
        match stream_type {
            PipeableStreamType::Video => self.video,
            PipeableStreamType::Audio => self.audio,
            PipeableStreamType::Subtitles => self.subtitles,
        }
    }

    /// The type-wise minimum of two stream counts.
    pub fn min(stream1: &PipeableType, stream2: &PipeableType) -> (r: PipeableType)
        ensures
            r == spec_pipeable_min(*stream1, *stream2),
    {
        PipeableType {
            video: min_of(stream1.video, stream2.video),
            audio: min_of(stream1.audio, stream2.audio),
            subtitles: min_of(stream1.subtitles, stream2.subtitles),
        }
    }

    /// The counts keyed by stream type, in the order video, audio, subtitles.
    pub fn get_map(&self) -> (r: Vec<(PipeableStreamType, i32)>)
        ensures
            r@ == seq![
                (PipeableStreamType::Video, self.video),
                (PipeableStreamType::Audio, self.audio),
                (PipeableStreamType::Subtitles, self.subtitles),
            ],
    {
        let mut m = Vec::new();
        m.push((PipeableStreamType::Video, self.video));
        m.push((PipeableStreamType::Audio, self.audio));
        m.push((PipeableStreamType::Subtitles, self.subtitles));
        m
    }

    /// Whether at most one kind of stream is present.
    pub fn is_singular_type(&self) -> (r: bool)
        ensures
            r == spec_is_singular(*self),
    {
        let v = self.video > 0;
        let a = self.audio > 0;
        let s = self.subtitles > 0;
        !((v && a) || (v && s) || (a && s))
    }
}

/// Whether a piped stream enters or leaves a node.
#[derive(PartialEq, Eq, Structural, Clone, Copy, Debug)]
pub enum InputOrOutput {
    Input,
    Output,
}

pub open spec fn spec_io_name(io: InputOrOutput) -> Seq<char> {
    match io {
        InputOrOutput::Input => "input"@,
        InputOrOutput::Output => "output"@,
    }
}

impl InputOrOutput {
    /// `input` or `output`.
    pub fn to_string(&self) -> (r: String)
        ensures
            r@ == spec_io_name(*self),
    {
        match self {
            InputOrOutput::Input => owned("input"),
            InputOrOutput::Output => owned("output"),
        }
    }
}

/// The type of media piped into or out of a node's property.
#[derive(Debug)]
pub struct PipedType {
    pub stream_type: PipeableType,
    pub node_id: ID,
    pub property_name: String,
    pub io: InputOrOutput,
    pub cache_id: Option<ID>,
}

pub open spec fn spec_save_location(d: Seq<char>, p: PipedType) -> Seq<char> {
    slashes_forward(
        spec_intermediate_files_location(d) + "/"@ + uuid_hyphenated(p.node_id) + "_"@
            + p.property_name@ + "_"@ + spec_io_name(p.io) + ".xges"@,
    )
}

pub open spec fn spec_save_location_with_cache(d: Seq<char>, cache_dir: Seq<char>, p: PipedType) -> Seq<char> {
    match p.cache_id {
        Some(c) => slashes_forward(cache_dir + "/"@ + uuid_hyphenated(c)),
        None => spec_save_location(d, p),
    }
}

pub open spec fn spec_gst_handle(p: PipedType, t: PipeableStreamType, index: i32) -> Option<Seq<char>> {
    if spec_of_type(p.stream_type, t) <= index {
        None
    } else {
        Some(uuid_hyphenated(p.node_id) + "-"@ + spec_io_name(p.io) + "-"@ + p.property_name@ + "-"@
            + spec_stream_name(t) + "-"@ + int_decimal(index as int))
    }
}

/// `from` holds fewer streams of some type than `to` asks for.
pub open spec fn spec_short_of(from: PipeableType, to: PipeableType) -> bool {
    from.video < to.video || from.audio < to.audio || from.subtitles < to.subtitles
}

/// The GStreamer text that carries the first `n` streams of type `t` from
/// `from` to `to`.
pub open spec fn spec_transfer_streams(from: PipedType, to: PipedType, t: PipeableStreamType, n: int) -> Seq<char>
    decreases n,
{
    if n <= 0 {
        Seq::empty()
    } else {
        spec_transfer_streams(from, to, t, n - 1) + " "@ + spec_gst_handle(from, t, (n - 1) as i32)->0 + ". ! "@
            + spec_stream_linker(t) + " name="@ + spec_gst_handle(to, t, (n - 1) as i32)->0
    }
}

pub open spec fn spec_transfer_pipe_type(from: PipedType, to: PipedType, t: PipeableStreamType) -> Option<Seq<char>> {
    if spec_short_of(from.stream_type, to.stream_type) {
        None
    } else {
        Some(spec_transfer_streams(from, to, t, spec_of_type(to.stream_type, t) as int))
    }
}

pub open spec fn spec_transfer_pipe(from: PipedType, to: PipedType) -> Option<Seq<char>> {
    if spec_short_of(from.stream_type, to.stream_type) {
        None
    } else {
        Some(spec_transfer_pipe_type(from, to, PipeableStreamType::Video)->0 + " "@
            + spec_transfer_pipe_type(from, to, PipeableStreamType::Audio)->0 + " "@
            + spec_transfer_pipe_type(from, to, PipeableStreamType::Subtitles)->0)
    }
}

/// The value of a piped type.
pub struct PipedTypeV {
    pub stream_type: PipeableType,
    pub node_id: ID,
    pub property_name: Seq<char>,
    pub io: InputOrOutput,
    pub cache_id: Option<ID>,
}

impl View for PipedType {
    type V = PipedTypeV;

    open spec fn view(&self) -> PipedTypeV {
        PipedTypeV {
            stream_type: self.stream_type,
            node_id: self.node_id,
            property_name: self.property_name@,
            io: self.io,
            cache_id: self.cache_id,
        }
    }
}

impl Clone for PipedType {
    fn clone(&self) -> (r: Self)
        ensures
            r == *self,
    {
        PipedType {
            stream_type: self.stream_type,
            node_id: self.node_id,
            property_name: self.property_name.clone(),
            io: self.io,
            cache_id: self.cache_id,
        }
    }
}

impl PipedType {
    /// The number of streams of the given type.
    pub fn get_number_of_streams(&self, stream_type: &PipeableStreamType) -> (r: i32)
        ensures
            r == spec_of_type(self.stream_type, *stream_type),
    {
        match stream_type {
            PipeableStreamType::Video => self.stream_type.video,
            PipeableStreamType::Audio => self.stream_type.audio,
            PipeableStreamType::Subtitles => self.stream_type.subtitles,
        }
    }

    /// The file the timeline of this piped media is saved to.
    pub fn get_save_location(&self, loc: &Locations) -> (r: String)
        ensures
            r@ == spec_save_location(loc.data_location@, *self),
    {
        let base = intermediate_files_location(loc);
        let id = id_to_string(self.node_id);
        let io = self.io.to_string();
        let mut s = cat3(base.as_str(), "/", id.as_str());
        s.append("_");
        s.append(self.property_name.as_str());
        s.append("_");
        s.append(io.as_str());
        s.append(".xges");
        replace_backslashes(s.as_str())
    }

    /// The URI of the file the timeline of this piped media is saved to.
    pub fn get_gst_save_location(&self, loc: &Locations) -> (r: String)
        ensures
            r@ == "file:///"@ + spec_save_location(loc.data_location@, *self),
    {
        let l = self.get_save_location(loc);
        cat("file:///", l.as_str())
    }

    /// The file of the cached timeline, where there is one, else the file of
    /// `get_save_location`; `cache_files_location` is the cache directory.
    pub fn get_save_location_with_cache(&self, loc: &Locations, cache_files_location: &str) -> (r: String)
        ensures
            r@ == spec_save_location_with_cache(loc.data_location@, cache_files_location@, *self),
    {
        match self.cache_id {
            Some(c) => {
                let id = id_to_string(c);
                let s = cat3(cache_files_location, "/", id.as_str());
                replace_backslashes(s.as_str())
            },
            None => self.get_save_location(loc),
        }
    }

    /// The URI form of `get_save_location_with_cache`.
    pub fn get_gst_save_location_with_cache(&self, loc: &Locations, cache_files_location: &str) -> (r: String)
        ensures
            r@ == "file:///"@ + spec_save_location_with_cache(loc.data_location@, cache_files_location@, *self),
    {
        let l = self.get_save_location_with_cache(loc, cache_files_location);
        cat("file:///", l.as_str())
    }

    /// The name of the GStreamer element for the `index`-th stream of the given
    /// type, or `None` when there are not that many streams.
    pub fn get_gst_handle(&self, stream_type: &PipeableStreamType, index: i32) -> (r: Option<String>)
        ensures
            match r {
                Some(s) => spec_gst_handle(*self, *stream_type, index) == Some(s@),
                None => spec_gst_handle(*self, *stream_type, index) is None,
            },
    {
        if self.get_number_of_streams(stream_type) <= index {
            return None;
        }
        let id = id_to_string(self.node_id);
        let io = self.io.to_string();
        let st = stream_type.to_string();
        let idx = i32_to_string(index);
        let mut s = cat3(id.as_str(), "-", io.as_str());
        s.append("-");
        s.append(self.property_name.as_str());
        s.append("-");
        s.append(st.as_str());
        s.append("-");
        s.append(idx.as_str());
        Some(s)
    }

    /// The GStreamer text that carries every stream from `from` to `to`, or
    /// `None` when `from` holds fewer streams of some type than `to`.
    pub fn gst_transfer_pipe(from: PipedType, to: PipedType) -> (r: Option<String>)
        ensures
            match r {
                Some(s) => spec_transfer_pipe(from, to) == Some(s@),
                None => spec_transfer_pipe(from, to) is None,
            },
    {
        if from.stream_type.video < to.stream_type.video || from.stream_type.audio < to.stream_type.audio
            || from.stream_type.subtitles < to.stream_type.subtitles {
            return None;
        }
        let video = Self::gst_transfer_pipe_type(&from, &to, &PipeableStreamType::Video);
        let audio = Self::gst_transfer_pipe_type(&from, &to, &PipeableStreamType::Audio);
        let subtitles = Self::gst_transfer_pipe_type(&from, &to, &PipeableStreamType::Subtitles);
        match (video, audio, subtitles) {
            (Some(v), Some(a), Some(s)) => {
                let mut r = cat3(v.as_str(), " ", a.as_str());
                r.append(" ");
                r.append(s.as_str());
                Some(r)
            },
            _ => None,
        }
    }

    /// The GStreamer text that carries the streams of one type from `from` to
    /// `to`, or `None` when `from` holds fewer streams of some type than `to`.
    pub fn gst_transfer_pipe_type(from: &PipedType, to: &PipedType, stream_type: &PipeableStreamType) -> (r: Option<String>)
        ensures
            match r {
                Some(s) => spec_transfer_pipe_type(*from, *to, *stream_type) == Some(s@),
                None => spec_transfer_pipe_type(*from, *to, *stream_type) is None,
            },
    {
        if from.stream_type.video < to.stream_type.video || from.stream_type.audio < to.stream_type.audio
            || from.stream_type.subtitles < to.stream_type.subtitles {
            return None;
        }
        let num = to.get_number_of_streams(stream_type);
        let linker = stream_type.stream_linker();
        let mut s = String::new();
        let mut i: i32 = 0;
        while i < num
            invariant
                0 <= i,
                i <= num || num <= 0,
                num <= 0 ==> i == 0,
                num == spec_of_type(to.stream_type, *stream_type),
                !spec_short_of(from.stream_type, to.stream_type),
                linker@ == spec_stream_linker(*stream_type),
                s@ == spec_transfer_streams(*from, *to, *stream_type, i as int),
            decreases num - i,
        {
            let g1 = from.get_gst_handle(stream_type, i);
            let g2 = to.get_gst_handle(stream_type, i);
            match (g1, g2) {
                (Some(a), Some(b)) => {
                    s.append(" ");
                    s.append(a.as_str());
                    s.append(". ! ");
                    s.append(linker.as_str());
                    s.append(" name=");
                    s.append(b.as_str());
                },
                _ => {
                    return None;
                },
            }
            i = i + 1;
        }
        if num <= 0 {
            assert(spec_transfer_streams(*from, *to, *stream_type, 0) =~= Seq::<char>::empty());
            assert(spec_transfer_streams(*from, *to, *stream_type, num as int) =~= Seq::<char>::empty());
        }
        Some(s)
    }
}

/// A typed output of a node.
#[derive(Debug)]
pub struct NodeTypeOutput {
    pub name: String,
    pub display_name: String,
    pub description: String,
    pub property_type: PipeableType,
}

/// The value of a node's output.
pub struct NodeTypeOutputV {
    pub name: Seq<char>,
    pub display_name: Seq<char>,
    pub description: Seq<char>,
    pub property_type: PipeableType,
}

impl View for NodeTypeOutput {
    type V = NodeTypeOutputV;

    open spec fn view(&self) -> NodeTypeOutputV {
        NodeTypeOutputV {
            name: self.name@,
            display_name: self.display_name@,
            description: self.description@,
            property_type: self.property_type,
        }
    }
}

/// The outputs of a node, each by its value.
pub open spec fn outputs_view(os: Seq<NodeTypeOutput>) -> Seq<NodeTypeOutputV> {
    os.map_values(|o: NodeTypeOutput| o@)
}

/// The one output, named `output`, that most node types have.
pub open spec fn spec_single_output(description: Seq<char>, t: PipeableType) -> Seq<NodeTypeOutputV> {
    seq![NodeTypeOutputV { name: "output"@, display_name: "Output"@, description, property_type: t }]
}

/// As many streams of each type as can be counted.
pub open spec fn spec_max_pipeable() -> PipeableType {
    PipeableType { video: i32::MAX, audio: i32::MAX, subtitles: i32::MAX }
}

/// The single output `output` with the given description and type.
pub fn single_output(description: &str, t: PipeableType) -> (r: Vec<NodeTypeOutput>)
    ensures
        outputs_view(r@) == spec_single_output(description@, t),
{
    let mut r: Vec<NodeTypeOutput> = Vec::new();
    r.push(NodeTypeOutput {
        name: owned("output"),
        display_name: owned("Output"),
        description: owned(description),
        property_type: t,
    });
    assert(outputs_view(r@) =~= spec_single_output(description@, t));
    r
}

impl Clone for NodeTypeOutput {
    fn clone(&self) -> (r: Self)
        ensures
            r == *self,
    {
        NodeTypeOutput {
            name: self.name.clone(),
            display_name: self.display_name.clone(),
            description: self.description.clone(),
            property_type: self.property_type,
        }
    }
}

} // verus!
