//! The messages of the protocol between client and server, and their
//! one-byte encoding.
use vstd::prelude::*;
use crate::text::str_eq;
use crate::clip::opt_view;

verus! {

/// The port the server listens on.
pub const SERVER_PORT: u16 = 3001;

/// A message of the protocol. On the wire a message is one byte: the
/// position of its variant, counting from 0.
#[derive(PartialEq, Eq, Structural, Clone, Copy, Debug)]
pub enum Message {
    GetStore,
    GetVideoPreview,
    GetFileThumbnail,
    UploadFile,
    Response,
    EndFile,
    NewChunk,
    AllChunksGenerated,
    GetFileID,
    CompositedClipLength,
    Checksum,
    ChecksumOk,
    ChecksumError,
    CreateSourceClip,
    CreateCompositedClip,
    CreateNode,
    UpdateNode,
    AddLink,
    DeleteLinks,
    UpdateClip,
    DeleteNode,
    CouldNotGeneratePreview,
    CouldNotGetLength,
    DownloadChunk,
}

/// The byte that stands for a message.
pub open spec fn spec_message_code(m: Message) -> u8 {
    match m {
        Message::GetStore => 0,
        Message::GetVideoPreview => 1,
        Message::GetFileThumbnail => 2,
        Message::UploadFile => 3,
        Message::Response => 4,
        Message::EndFile => 5,
        Message::NewChunk => 6,
        Message::AllChunksGenerated => 7,
        Message::GetFileID => 8,
        Message::CompositedClipLength => 9,
        Message::Checksum => 10,
        Message::ChecksumOk => 11,
        Message::ChecksumError => 12,
        Message::CreateSourceClip => 13,
        Message::CreateCompositedClip => 14,
        Message::CreateNode => 15,
        Message::UpdateNode => 16,
        Message::AddLink => 17,
        Message::DeleteLinks => 18,
        Message::UpdateClip => 19,
        Message::DeleteNode => 20,
        Message::CouldNotGeneratePreview => 21,
        Message::CouldNotGetLength => 22,
        Message::DownloadChunk => 23,
    }
}

/// The message a byte stands for, if any.
pub open spec fn spec_message_of(b: u8) -> Option<Message> {
    match b {
        0 => Some(Message::GetStore),
        1 => Some(Message::GetVideoPreview),
        2 => Some(Message::GetFileThumbnail),
        3 => Some(Message::UploadFile),
        4 => Some(Message::Response),
        5 => Some(Message::EndFile),
        6 => Some(Message::NewChunk),
        7 => Some(Message::AllChunksGenerated),
        8 => Some(Message::GetFileID),
        9 => Some(Message::CompositedClipLength),
        10 => Some(Message::Checksum),
        11 => Some(Message::ChecksumOk),
        12 => Some(Message::ChecksumError),
        13 => Some(Message::CreateSourceClip),
        14 => Some(Message::CreateCompositedClip),
        15 => Some(Message::CreateNode),
        16 => Some(Message::UpdateNode),
        17 => Some(Message::AddLink),
        18 => Some(Message::DeleteLinks),
        19 => Some(Message::UpdateClip),
        20 => Some(Message::DeleteNode),
        21 => Some(Message::CouldNotGeneratePreview),
        22 => Some(Message::CouldNotGetLength),
        23 => Some(Message::DownloadChunk),
        _ => None,
    }
}

/// Why a received buffer is no message.
#[derive(PartialEq, Eq, Structural, Clone, Copy, Debug)]
pub enum MessageError {
    /// Nothing was received.
    BufferEmpty,
    /// The byte stands for no message.
    Invalid,
}

impl Message {
    /// The byte that stands for the message.
    pub fn to_u8(&self) -> (r: u8)
        ensures
            r == spec_message_code(*self),
    {
        match self {
            Message::GetStore => 0u8,
            Message::GetVideoPreview => 1u8,
            Message::GetFileThumbnail => 2u8,
            Message::UploadFile => 3u8,
            Message::Response => 4u8,
            Message::EndFile => 5u8,
            Message::NewChunk => 6u8,
            Message::AllChunksGenerated => 7u8,
            Message::GetFileID => 8u8,
            Message::CompositedClipLength => 9u8,
            Message::Checksum => 10u8,
            Message::ChecksumOk => 11u8,
            Message::ChecksumError => 12u8,
            Message::CreateSourceClip => 13u8,
            Message::CreateCompositedClip => 14u8,
            Message::CreateNode => 15u8,
            Message::UpdateNode => 16u8,
            Message::AddLink => 17u8,
            Message::DeleteLinks => 18u8,
            Message::UpdateClip => 19u8,
            Message::DeleteNode => 20u8,
            Message::CouldNotGeneratePreview => 21u8,
            Message::CouldNotGetLength => 22u8,
            Message::DownloadChunk => 23u8,
        }
    }

    /// The message a byte stands for; `None` for a byte of no message.
    pub fn from_u8(b: u8) -> (r: Option<Message>)
        ensures
            r == spec_message_of(b),
    {
        match b {
        0u8 => Some(Message::GetStore),
        1u8 => Some(Message::GetVideoPreview),
        2u8 => Some(Message::GetFileThumbnail),
        3u8 => Some(Message::UploadFile),
        4u8 => Some(Message::Response),
        5u8 => Some(Message::EndFile),
        6u8 => Some(Message::NewChunk),
        7u8 => Some(Message::AllChunksGenerated),
        8u8 => Some(Message::GetFileID),
        9u8 => Some(Message::CompositedClipLength),
        10u8 => Some(Message::Checksum),
        11u8 => Some(Message::ChecksumOk),
        12u8 => Some(Message::ChecksumError),
        13u8 => Some(Message::CreateSourceClip),
        14u8 => Some(Message::CreateCompositedClip),
        15u8 => Some(Message::CreateNode),
        16u8 => Some(Message::UpdateNode),
        17u8 => Some(Message::AddLink),
        18u8 => Some(Message::DeleteLinks),
        19u8 => Some(Message::UpdateClip),
        20u8 => Some(Message::DeleteNode),
        21u8 => Some(Message::CouldNotGeneratePreview),
        22u8 => Some(Message::CouldNotGetLength),
        23u8 => Some(Message::DownloadChunk),
            _ => None,
        }
    }
}

/// The message that a received buffer starts with: an error when the buffer
/// is empty or its first byte stands for no message.
pub fn decode_message(buffer: &[u8]) -> (r: Result<Message, MessageError>)
    ensures
        buffer@.len() == 0 ==> r == Err::<Message, MessageError>(MessageError::BufferEmpty),
        buffer@.len() > 0 ==> r == (match spec_message_of(buffer@[0]) {
            Some(m) => Ok::<Message, MessageError>(m),
            None => Err(MessageError::Invalid),
        }),
{
    if buffer.len() == 0 {
        return Err(MessageError::BufferEmpty);
    }
    match Message::from_u8(buffer[0]) {
        Some(m) => Ok(m),
        None => Err(MessageError::Invalid),
    }
}

/// Each message goes on the wire as the position of its variant in the
/// declaration of `Message`, counting from 0, and that byte reads back as it.
pub proof fn law_message_codes_are_declaration_positions()
    ensures
        spec_message_code(Message::GetStore) == 0,
        spec_message_code(Message::GetVideoPreview) == 1,
        spec_message_code(Message::GetFileThumbnail) == 2,
        spec_message_code(Message::UploadFile) == 3,
        spec_message_code(Message::Response) == 4,
        spec_message_code(Message::EndFile) == 5,
        spec_message_code(Message::NewChunk) == 6,
        spec_message_code(Message::AllChunksGenerated) == 7,
        spec_message_code(Message::GetFileID) == 8,
        spec_message_code(Message::CompositedClipLength) == 9,
        spec_message_code(Message::Checksum) == 10,
        spec_message_code(Message::ChecksumOk) == 11,
        spec_message_code(Message::ChecksumError) == 12,
        spec_message_code(Message::CreateSourceClip) == 13,
        spec_message_code(Message::CreateCompositedClip) == 14,
        spec_message_code(Message::CreateNode) == 15,
        spec_message_code(Message::UpdateNode) == 16,
        spec_message_code(Message::AddLink) == 17,
        spec_message_code(Message::DeleteLinks) == 18,
        spec_message_code(Message::UpdateClip) == 19,
        spec_message_code(Message::DeleteNode) == 20,
        spec_message_code(Message::CouldNotGeneratePreview) == 21,
        spec_message_code(Message::CouldNotGetLength) == 22,
        spec_message_code(Message::DownloadChunk) == 23,
        forall|m: Message| #[trigger] spec_message_of(spec_message_code(m)) == Some(m),
{
}

/// Encoding a message and decoding the byte gives the message back.
pub proof fn law_message_roundtrip(m: Message)
    ensures
        spec_message_of(spec_message_code(m)) == Some(m),
{
}

/// A byte that stands for a message is that message's code.
pub proof fn law_message_code_of_decoded(b: u8)
    ensures
        spec_message_of(b) matches Some(m) ==> spec_message_code(m) == b,
{
}

/// Exactly the bytes below the number of messages stand for a message.
pub proof fn law_message_codes_dense(b: u8)
    ensures
        spec_message_of(b) is Some <==> b < 24,
{
}

/// The text that the input property of a link deletion is sent as: the
/// property, or the empty text when every link of the node goes.
pub open spec fn spec_property_text(property: Option<Seq<char>>) -> Seq<char> {
    match property {
        Some(p) => p,
        None => Seq::empty(),
    }
}

/// The input property that a link deletion's text names: none when the text
/// is empty.
pub open spec fn spec_property_of(text: Seq<char>) -> Option<Seq<char>> {
    if text.len() == 0 { None } else { Some(text) }
}

/// The text that the input property of a link deletion is sent as.
pub fn property_to_text(property: Option<String>) -> (r: String)
    ensures
        r@ == spec_property_text(opt_view(property)),
{
    match property {
        Some(p) => p,
        None => String::new(),
    }
}

/// The input property that a link deletion's text names.
pub fn property_from_text(text: String) -> (r: Option<String>)
    ensures
        r == (if text@.len() == 0 { None } else { Some(text) }),
        opt_view(r) == spec_property_of(text@),
{
    proof {
        reveal_strlit("");
        if text@.len() == 0 {
            assert(text@ =~= ""@);
        }
    }
    if str_eq(text.as_str(), "") {
        None
    } else {
        Some(text)
    }
}

/// A property sent for a link deletion is read back as sent, and no property
/// as none; an empty property cannot be sent, as it reads back as none.
pub proof fn law_property_text_roundtrip(property: Option<Seq<char>>)
    requires
        property != Some(Seq::<char>::empty()),
    ensures
        spec_property_of(spec_property_text(property)) == property,
{
    if let Some(p) = property {
        if p.len() == 0 {
            assert(p =~= Seq::<char>::empty());
        }
    }
}

} // verus!
