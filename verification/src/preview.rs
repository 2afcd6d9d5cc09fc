//! The bookkeeping of rendered preview chunks: which chunks the server has
//! generated, the steps a client takes each chunk through, and the files the
//! chunks are kept in.
use vstd::prelude::*;
use crate::constants::{CHUNK_FILENAME_NUMBER_LENGTH, CHUNK_LENGTH};
use crate::status::{VideoChunkStatus, VideoPreviewChunkStatus, VideoPreviewStatus};
use crate::global::hex_digit;
use crate::text::{cat, cat3, u64_to_string, nat_decimal};

verus! {

/// Every chunk from `start` to `end` (both included) exists and is generated.
pub open spec fn spec_chunks_generated(chunks: Seq<VideoChunkStatus>, start: u32, end: u32) -> bool {
    forall|i: int| start <= i <= end ==> i < chunks.len() && #[trigger] chunks[i] == VideoChunkStatus::Generated
}

/// Whether every chunk from `start` to `end` (both included) exists and has
/// been generated, so that the request can be answered at once.
pub fn chunks_generated(chunks: &Vec<VideoChunkStatus>, start: u32, end: u32) -> (r: bool)
    requires
        end < u32::MAX,
    ensures
        r == spec_chunks_generated(chunks@, start, end),
{
    let mut ok = true;
    let mut i = start;
    while i < end + 1
        invariant
            start <= i,
            i <= end + 1 || start > end,
            start > end ==> i == start,
            end < u32::MAX,
            ok == (forall|j: int| start <= j < i ==> j < chunks@.len() && #[trigger] chunks@[j] == VideoChunkStatus::Generated),
        decreases end + 1 - i,
    {
        let good = (i as usize) < chunks.len() && chunks[i as usize] == VideoChunkStatus::Generated;
        proof {
            if ok && good {
                assert forall|j: int| start <= j < i + 1 implies j < chunks@.len() && #[trigger] chunks@[j] == VideoChunkStatus::Generated by {
                    if j < i {
                    }
                }
            }
            if !good {
                assert(!(i < chunks@.len() && chunks@[i as int] == VideoChunkStatus::Generated));
            }
        }
        ok = ok && good;
        i = i + 1;
    }
    proof {
        if start <= end {
            assert(i == end + 1);
        }
        if ok {
            assert forall|j: int| start <= j <= end implies j < chunks@.len() && #[trigger] chunks@[j] == VideoChunkStatus::Generated by {
                assert(j < i);
            }
        } else {
            let j = choose|j: int| !(start <= j < i ==> j < chunks@.len() && #[trigger] chunks@[j] == VideoChunkStatus::Generated);
            assert(start <= j <= end);
        }
    }
    ok
}

/// The statuses of a preview of `number_of_chunks` chunks whose chunks from
/// `start` to `end` are being generated by process `pid`.
pub open spec fn spec_generating_statuses(number_of_chunks: u32, start: u32, end: u32, pid: u32) -> Seq<VideoChunkStatus> {
    Seq::new(number_of_chunks as nat, |i: int| if start <= i <= end {
        VideoChunkStatus::Generating(pid)
    } else {
        VideoChunkStatus::NotGenerated
    })
}

/// A fresh set of statuses, with the chunks from `start` to `end` being
/// generated by process `pid` and the others not generated. A range beyond
/// the last chunk is outside `requires`.
pub fn generating_statuses(number_of_chunks: u32, start: u32, end: u32, pid: u32) -> (r: Vec<VideoChunkStatus>)
    requires
        start <= end ==> end < number_of_chunks,
        end < u32::MAX,
    ensures
        r@ == spec_generating_statuses(number_of_chunks, start, end, pid),
{
    let mut statuses: Vec<VideoChunkStatus> = Vec::new();
    let mut k: u32 = 0;
    while k < number_of_chunks
        invariant
            k <= number_of_chunks,
            statuses@.len() == k,
            forall|j: int| 0 <= j < k ==> #[trigger] statuses@[j] == VideoChunkStatus::NotGenerated,
        decreases number_of_chunks - k,
    {
        statuses.push(VideoChunkStatus::NotGenerated);
        k = k + 1;
    }
    let mut i = start;
    while i < end + 1
        invariant
            statuses@.len() == number_of_chunks,
            start <= end ==> end < number_of_chunks,
            end < u32::MAX,
            start <= i,
            i <= end + 1 || start > end,
            start > end ==> i == start,
            forall|j: int| 0 <= j < number_of_chunks ==> #[trigger] statuses@[j] == (if start <= j < i {
                VideoChunkStatus::Generating(pid)
            } else {
                VideoChunkStatus::NotGenerated
            }),
        decreases end + 1 - i,
    {
        statuses.set(i as usize, VideoChunkStatus::Generating(pid));
        i = i + 1;
    }
    assert forall|j: int| 0 <= j < number_of_chunks implies #[trigger] statuses@[j] == spec_generating_statuses(number_of_chunks, start, end, pid)[j] by {
        let expected = if start <= j <= end { VideoChunkStatus::Generating(pid) } else { VideoChunkStatus::NotGenerated };
        assert(spec_generating_statuses(number_of_chunks, start, end, pid)[j] == expected);
        if start <= end {
            assert(i == end + 1);
        }
        assert(statuses@[j] == expected);
    }
    assert(statuses@ =~= spec_generating_statuses(number_of_chunks, start, end, pid));
    statuses
}

/// Records that chunk `chunk` has been generated. A chunk beyond the last is
/// outside `requires`.
pub fn mark_chunk_generated(statuses: &mut Vec<VideoChunkStatus>, chunk: u32)
    requires
        chunk < old(statuses)@.len(),
    ensures
        final(statuses)@ == old(statuses)@.update(chunk as int, VideoChunkStatus::Generated),
{
    statuses.set(chunk as usize, VideoChunkStatus::Generated);
}

/// Whether chunk `chunk` exists and has been generated, so that it can be
/// downloaded.
pub fn chunk_ready(statuses: &Vec<VideoChunkStatus>, chunk: u32) -> (r: bool)
    ensures
        r == (chunk < statuses@.len() && statuses@[chunk as int] == VideoChunkStatus::Generated),
{
    if (chunk as usize) < statuses.len() {
        match statuses[chunk as usize] {
            VideoChunkStatus::Generated => true,
            _ => false,
        }
    } else {
        false
    }
}

/// `s` padded on the left with zeros to at least `width` characters.
pub open spec fn spec_zero_pad(s: Seq<char>, width: nat) -> Seq<char> {
    if s.len() >= width {
        s
    } else {
        Seq::new((width - s.len()) as nat, |i: int| '0') + s
    }
}

/// The file of chunk `chunk` of a preview in directory `base`:
/// `<base>/segment<chunk, zero-padded to six digits>.<extension>`.
pub open spec fn spec_segment_location(base: Seq<char>, chunk: u32, extension: Seq<char>) -> Seq<char> {
    base + "/segment"@ + spec_zero_pad(nat_decimal(chunk as nat), CHUNK_FILENAME_NUMBER_LENGTH as nat) + "."@ + extension
}

/// The file of chunk `chunk` of a preview in directory `base`, with the given
/// extension: the chunk's number is padded with zeros to six digits.
pub fn segment_location(base: &str, chunk: u32, extension: &str) -> (r: String)
    ensures
        r@ == spec_segment_location(base@, chunk, extension@),
{
    let digits = u64_to_string(chunk as u64);
    let width = CHUNK_FILENAME_NUMBER_LENGTH as usize;
    let mut zeros = String::new();
    let mut k: usize = digits.unicode_len();
    assert(zeros@ =~= Seq::new((k - digits@.len()) as nat, |i: int| '0'));
    while k < width
        invariant
            digits@.len() <= k <= width || k == digits@.len(),
            width == CHUNK_FILENAME_NUMBER_LENGTH as usize,
            zeros@ == Seq::new((k - digits@.len()) as nat, |i: int| '0'),
        decreases width - k,
    {
        zeros = cat(zeros.as_str(), "0");
        proof {
            reveal_strlit("0");
        }
        assert(zeros@ =~= Seq::new((k + 1 - digits@.len()) as nat, |i: int| '0'));
        k = k + 1;
    }
    let padded = cat(zeros.as_str(), digits.as_str());
    assert(padded@ =~= spec_zero_pad(nat_decimal(chunk as nat), CHUNK_FILENAME_NUMBER_LENGTH as nat));
    let mut s = cat3(base, "/segment", padded.as_str());
    s.append(".");
    s.append(extension);
    s
}

/// The chunk statuses with each requested chunk taken to generating.
pub open spec fn spec_start_generating(data: Seq<VideoPreviewChunkStatus>) -> Seq<VideoPreviewChunkStatus> {
    data.map_values(|s: VideoPreviewChunkStatus| if s == VideoPreviewChunkStatus::Requested {
        VideoPreviewChunkStatus::Generating
    } else {
        s
    })
}

/// The chunk statuses with each generated chunk taken to downloading.
pub open spec fn spec_start_downloading(data: Seq<VideoPreviewChunkStatus>) -> Seq<VideoPreviewChunkStatus> {
    data.map_values(|s: VideoPreviewChunkStatus| if s == VideoPreviewChunkStatus::Generated {
        VideoPreviewChunkStatus::Downloading
    } else {
        s
    })
}

/// The chunk statuses a preview holds, if it holds any.
pub open spec fn spec_preview_chunks(p: VideoPreviewStatus) -> Option<Seq<VideoPreviewChunkStatus>> {
    match p {
        VideoPreviewStatus::Data(_, _, _, data) => Some(data@),
        _ => None,
    }
}

/// The other fields of a preview with data.
pub open spec fn spec_preview_head(p: VideoPreviewStatus) -> Option<(u64, Option<String>, bool)> {
    match p {
        VideoPreviewStatus::Data(d, c, v, _) => Some((d, c, v)),
        _ => None,
    }
}

fn map_chunks(data: &mut Vec<VideoPreviewChunkStatus>, from: VideoPreviewChunkStatus, to: VideoPreviewChunkStatus) -> (r: bool)
    ensures
        final(data)@.len() == old(data)@.len(),
        forall|i: int| 0 <= i < old(data)@.len() ==> #[trigger] final(data)@[i] == (if old(data)@[i] == from { to } else { old(data)@[i] }),
        r == exists|i: int| 0 <= i < old(data)@.len() && #[trigger] old(data)@[i] == from,
{
    let ghost d0 = data@;
    let mut changed = false;
    let mut i: usize = 0;
    while i < data.len()
        invariant
            i <= data@.len(),
            data@.len() == d0.len(),
            forall|j: int| 0 <= j < i ==> #[trigger] data@[j] == (if d0[j] == from { to } else { d0[j] }),
            forall|j: int| i <= j < d0.len() ==> #[trigger] data@[j] == d0[j],
            changed == exists|j: int| 0 <= j < i && #[trigger] d0[j] == from,
        decreases data@.len() - i,
    {
        if data[i] == from {
            data.set(i, to);
            changed = true;
        }
        i = i + 1;
    }
    changed
}

impl VideoPreviewStatus {
    /// Takes each chunk that the front end has requested to generating, as
    /// the client does before asking the server for them; a preview without
    /// data is left as it is.
    pub fn start_generating(&mut self)
        ensures
            spec_preview_head(*final(self)) == spec_preview_head(*old(self)),
            match spec_preview_chunks(*old(self)) {
                Some(d) => spec_preview_chunks(*final(self)) == Some(spec_start_generating(d)),
                None => *final(self) == *old(self),
            },
    {
        match self {
            VideoPreviewStatus::Data(_, _, _, data) => {
                let ghost d0 = data@;
                map_chunks(data, VideoPreviewChunkStatus::Requested, VideoPreviewChunkStatus::Generating);
                assert(data@ =~= spec_start_generating(d0));
            },
            _ => {},
        }
    }

    /// Takes each chunk that the server has generated to downloading, as the
    /// client does before fetching them; says whether there was any. A
    /// preview without data is left as it is.
    pub fn start_downloading(&mut self) -> (r: bool)
        ensures
            spec_preview_head(*final(self)) == spec_preview_head(*old(self)),
            match spec_preview_chunks(*old(self)) {
                Some(d) => {
                    &&& spec_preview_chunks(*final(self)) == Some(spec_start_downloading(d))
                    &&& r == d.contains(VideoPreviewChunkStatus::Generated)
                },
                None => *final(self) == *old(self) && !r,
            },
    {
        match self {
            VideoPreviewStatus::Data(_, _, _, data) => {
                let ghost d0 = data@;
                let r = map_chunks(data, VideoPreviewChunkStatus::Generated, VideoPreviewChunkStatus::Downloading);
                assert(data@ =~= spec_start_downloading(d0));
                r
            },
            _ => false,
        }
    }
}

/// The two lower-case hexadecimal digits of a byte.
pub open spec fn spec_hex_byte(b: u8) -> Seq<char> {
    seq![hex_digit(b as int / 16), hex_digit(b as int % 16)]
}

/// The hexadecimal text of bytes 1 to 3 of an H.264 stream's codec data (its
/// profile, compatibility and level), as far as the data goes.
pub open spec fn spec_avc_profile(data: Seq<u8>) -> Seq<char>
    decreases data.len(),
{
    if data.len() <= 1 {
        Seq::empty()
    } else if data.len() > 4 {
        spec_avc_profile(data.take(4))
    } else {
        spec_avc_profile(data.drop_last()) + spec_hex_byte(data.last())
    }
}

/// Appends a codec to a comma-separated list.
pub open spec fn spec_add_codec(list: Seq<char>, codec: Seq<char>) -> Seq<char> {
    (if list.len() > 0 { list + ","@ } else { list }) + codec
}

/// The codecs of the video streams, in order, each `avc1.<profile>`.
pub open spec fn spec_video_codecs(videos: Seq<Seq<u8>>) -> Seq<char>
    decreases videos.len(),
{
    if videos.len() == 0 {
        Seq::empty()
    } else {
        spec_add_codec(spec_video_codecs(videos.drop_last()), "avc1."@ + spec_avc_profile(videos.last()))
    }
}

/// The codec list with `n` AAC audio streams added.
pub open spec fn spec_audio_codecs(list: Seq<char>, n: nat) -> Seq<char>
    decreases n,
{
    if n == 0 {
        list
    } else {
        spec_add_codec(spec_audio_codecs(list, (n - 1) as nat), "mp4a.40.2"@)
    }
}

/// The MIME type a media source buffer is opened with for a preview whose
/// video streams have the given codec data and which has `audio` audio
/// streams.
pub open spec fn spec_codec_string(videos: Seq<Seq<u8>>, audio: nat) -> Seq<char> {
    "video/mp2t; codecs=\""@ + spec_audio_codecs(spec_video_codecs(videos), audio) + "\""@
}

fn hex_digit_str(n: u8) -> (r: &'static str)
    requires
        n < 16,
    ensures
        r@ == seq![hex_digit(n as int)],
{
    match n {
        0 => {
            proof { reveal_strlit("0"); }
            "0"
        },
        1 => {
            proof { reveal_strlit("1"); }
            "1"
        },
        2 => {
            proof { reveal_strlit("2"); }
            "2"
        },
        3 => {
            proof { reveal_strlit("3"); }
            "3"
        },
        4 => {
            proof { reveal_strlit("4"); }
            "4"
        },
        5 => {
            proof { reveal_strlit("5"); }
            "5"
        },
        6 => {
            proof { reveal_strlit("6"); }
            "6"
        },
        7 => {
            proof { reveal_strlit("7"); }
            "7"
        },
        8 => {
            proof { reveal_strlit("8"); }
            "8"
        },
        9 => {
            proof { reveal_strlit("9"); }
            "9"
        },
        10 => {
            proof { reveal_strlit("a"); }
            "a"
        },
        11 => {
            proof { reveal_strlit("b"); }
            "b"
        },
        12 => {
            proof { reveal_strlit("c"); }
            "c"
        },
        13 => {
            proof { reveal_strlit("d"); }
            "d"
        },
        14 => {
            proof { reveal_strlit("e"); }
            "e"
        },
        15 => {
            proof { reveal_strlit("f"); }
            "f"
        },
        _ => {
            proof { reveal_strlit("f"); }
            "f"
        },
    }
}

/// The hexadecimal text of bytes 1 to 3 of an H.264 stream's codec data.
fn avc_profile(data: &Vec<u8>) -> (r: String)
    ensures
        r@ == spec_avc_profile(data@),
{
    let mut s = String::new();
    if data.len() <= 1 {
        return s;
    }
    let mut k: usize = 1;
    assert(spec_avc_profile(data@.take(1)) == Seq::<char>::empty());
    while k < data.len() && k < 4
        invariant
            1 <= k <= 4,
            k <= data@.len(),
            s@ == spec_avc_profile(data@.take(k as int)),
        decreases 4 - k,
    {
        let b = data[k];
        let hi = hex_digit_str(b / 16);
        let lo = hex_digit_str(b % 16);
        let ghost before = s@;
        s = cat3(s.as_str(), hi, lo);
        proof {
            assert(data@.take(k + 1).drop_last() =~= data@.take(k as int));
            assert(data@.take(k + 1).last() == b);
            assert(s@ =~= before + spec_hex_byte(b));
        }
        k = k + 1;
    }
    proof {
        if data@.len() < 4 {
            assert(k == data@.len());
            assert(data@.take(k as int) =~= data@);
        } else {
            assert(k == 4);
            if data@.len() == 4 {
                assert(data@.take(4) =~= data@);
            }
        }
    }
    s
}

fn add_codec(list: String, codec: &str) -> (r: String)
    ensures
        r@ == spec_add_codec(list@, codec@),
{
    proof {
        reveal_strlit(",");
    }
    if list.unicode_len() > 0 {
        cat3(list.as_str(), ",", codec)
    } else {
        cat(list.as_str(), codec)
    }
}

/// The MIME type that a client opens the media source buffer of a preview
/// with, and whether the preview has video: `video/mp2t` with an
/// `avc1.<profile>` codec for each video stream (its profile read from bytes 1
/// to 3 of the stream's codec data) and an `mp4a.40.2` codec for each audio
/// stream.
pub fn codec_string(video_codec_data: &Vec<Vec<u8>>, audio_streams: usize) -> (r: (String, bool))
    ensures
        r.0@ == spec_codec_string(video_codec_data@.map_values(|d: Vec<u8>| d@), audio_streams as nat),
        r.1 == (video_codec_data@.len() > 0),
{
    let ghost vs = video_codec_data@.map_values(|d: Vec<u8>| d@);
    let mut list = String::new();
    let mut i: usize = 0;
    while i < video_codec_data.len()
        invariant
            i <= video_codec_data@.len(),
            vs == video_codec_data@.map_values(|d: Vec<u8>| d@),
            list@ == spec_video_codecs(vs.take(i as int)),
        decreases video_codec_data@.len() - i,
    {
        let profile = avc_profile(&video_codec_data[i]);
        let codec = cat("avc1.", profile.as_str());
        proof {
            assert(vs.take(i + 1).drop_last() =~= vs.take(i as int));
            assert(vs.take(i + 1).last() == video_codec_data@[i as int]@);
        }
        list = add_codec(list, codec.as_str());
        i = i + 1;
    }
    proof {
        assert(vs.take(video_codec_data@.len() as int) =~= vs);
    }
    let ghost videos = list@;
    let mut j: usize = 0;
    while j < audio_streams
        invariant
            j <= audio_streams,
            list@ == spec_audio_codecs(videos, j as nat),
        decreases audio_streams - j,
    {
        list = add_codec(list, "mp4a.40.2");
        j = j + 1;
    }
    let s = cat3("video/mp2t; codecs=\"", list.as_str(), "\"");
    (s, video_codec_data.len() > 0)
}

/// The number of chunks of `CHUNK_LENGTH` seconds that a clip of
/// `total_ms` milliseconds is rendered in: the duration divided by the chunk
/// length, rounded up, and at most `u32::MAX`.
pub open spec fn spec_number_of_chunks(total_ms: u64) -> u32 {
    let c = (total_ms + 9999) / 10000;
    if c > u32::MAX { u32::MAX } else { c as u32 }
}

/// The number of chunks a clip of `total_ms` milliseconds is rendered in.
pub fn number_of_chunks(total_ms: u64) -> (r: u32)
    ensures
        r == spec_number_of_chunks(total_ms),
{
    let chunk_ms: u64 = (CHUNK_LENGTH as u64) * 1000;
    let whole = total_ms / chunk_ms;
    assert(whole <= total_ms);
    let c: u64 = if total_ms % chunk_ms == 0 { whole } else { whole + 1 };
    assert(c == (total_ms + 9999) / 10000) by (nonlinear_arith)
        requires
            chunk_ms == 10000,
            whole == total_ms / chunk_ms,
            c == (if total_ms % chunk_ms == 0 { whole as int } else { whole + 1 }),
    ;
    if c > u32::MAX as u64 { u32::MAX } else { c as u32 }
}

/// Where rendering of the chunks from `start` starts, in seconds: none for
/// the first chunk. A start whose offset overflows `u32` is outside
/// `requires`.
pub fn chunk_inpoint(start: u32) -> (r: Option<u64>)
    requires
        start as int * 10 <= u32::MAX,
    ensures
        r == (if start > 0 { Some((start as int * 10) as u64) } else { None::<u64> }),
{
    if start > 0 {
        let len: u32 = CHUNK_LENGTH as u32;
        assert(len == 10);
        Some((len * start) as u64)
    } else {
        None
    }
}

/// How much of a clip of `total_ms` milliseconds and `n` chunks is rendered
/// for the chunks from `start` to `end`, in milliseconds: none (the rest of
/// the clip) when that is the whole clip; whole chunks when `end` is not the
/// last chunk; otherwise the whole chunks before `end` and `total_ms % 10`.
/// The inputs on which its `u32` arithmetic would overflow are outside
/// `requires`.
pub open spec fn spec_chunk_span(total_ms: u64, n: u32, start: u32, end: u32) -> Option<u64> {
    if end == n - 1 && start == 0 {
        None
    } else if end < n - 1 {
        Some(((end - start + 1) * 10 * 1000) as u64)
    } else {
        Some(((end - start) * 10 * 1000 + total_ms % 10) as u64)
    }
}

/// How much of the clip is rendered for the chunks from `start` to `end`.
pub fn chunk_span(total_ms: u64, n: u32, start: u32, end: u32) -> (r: Option<u64>)
    requires
        n >= 1,
        !(end == n - 1 && start == 0) ==> start <= end,
        !(end == n - 1 && start == 0) && end < n - 1 ==> (end - start + 1) * 10 <= u32::MAX,
        !(end == n - 1 && start == 0) && end >= n - 1 ==> (end - start) * 10 * 1000 <= u32::MAX,
    ensures
        r == spec_chunk_span(total_ms, n, start, end),
{
    let len: u32 = CHUNK_LENGTH as u32;
    assert(len == 10);
    if end == n - 1 && start == 0 {
        None
    } else if end < n - 1 {
        let chunks = end - start + 1;
        let seconds = chunks * len;
        Some((seconds as u64) * 1000)
    } else {
        let full = end - start;
        let ms = (full * len * 1000) as u64 + total_ms % (CHUNK_LENGTH as u64);
        Some(ms)
    }
}

/// The longest a chunk file may run, in nanoseconds: ten chunks' length when
/// a single chunk is rendered, one chunk's length otherwise.
pub fn chunk_split_time(start: u32, end: u32) -> (r: u64)
    ensures
        r == (if start == end { 100_000_000_000u64 } else { 10_000_000_000u64 }),
{
    let ns = (CHUNK_LENGTH as u64) * 1000000000;
    if start == end { ns * 10 } else { ns }
}

} // verus!
