//! The states that client and server keep of video previews and of the
//! connection.
use vstd::prelude::*;

verus! {

/// The state of one chunk of a preview on the server.
#[derive(PartialEq, Eq, Structural, Clone, Copy, Debug)]
pub enum VideoChunkStatus {
    NotGenerated,
    Requested,
    Generating(u32),
    Generated,
}

/// The state of one chunk of a preview on the client.
#[derive(PartialEq, Eq, Structural, Clone, Copy, Debug)]
pub enum VideoPreviewChunkStatus {
    /// The front end has not asked for it.
    NotRequested,
    /// The front end asked for it; the server has not been asked yet.
    Requested,
    /// The server has been asked and has not answered yet.
    Generating,
    /// The server has generated it.
    Generated,
    /// It is being downloaded from the server.
    Downloading,
    /// It is downloaded and ready for the front end.
    Downloaded,
}

/// The state of the preview of a composited clip on the client.
#[derive(Debug)]
pub enum VideoPreviewStatus {
    /// Not yet requested.
    NotRequested,
    /// The number of chunks and the duration have been requested.
    LengthRequested,
    /// The duration, the codec string, whether the clip has video, and the
    /// state of each chunk.
    Data(u64, Option<String>, bool, Vec<VideoPreviewChunkStatus>),
}

/// The value of a preview's state.
pub enum VideoPreviewStatusV {
    NotRequested,
    LengthRequested,
    Data(u64, Option<Seq<char>>, bool, Seq<VideoPreviewChunkStatus>),
}

impl View for VideoPreviewStatus {
    type V = VideoPreviewStatusV;

    open spec fn view(&self) -> VideoPreviewStatusV {
        match *self {
            VideoPreviewStatus::NotRequested => VideoPreviewStatusV::NotRequested,
            VideoPreviewStatus::LengthRequested => VideoPreviewStatusV::LengthRequested,
            VideoPreviewStatus::Data(d, c, v, chunks) => VideoPreviewStatusV::Data(d, match c {
                Some(s) => Some(s@),
                None => None,
            }, v, chunks@),
        }
    }
}

/// The state of the client's connection to the server.
#[derive(Debug)]
pub enum ConnectionStatus {
    InitialisingConnection,
    InitialConnectionFailed(String),
    Connected,
    ConnectionFailed(String),
}

} // verus!
