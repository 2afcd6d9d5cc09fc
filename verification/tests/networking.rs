use cs310_shared::networking::{decode_message, Message, MessageError, SERVER_PORT};

#[test]
fn every_message_survives_its_byte() {
    let mut count = 0;
    for b in 0..=255u8 {
        if let Some(m) = Message::from_u8(b) {
            assert_eq!(m.to_u8(), b);
            assert_eq!(Message::from_u8(m.to_u8()), Some(m));
            count += 1;
        }
    }
    assert_eq!(count, 24);
}

#[test]
fn message_codes_follow_the_declaration() {
    assert_eq!(Message::GetStore.to_u8(), 0);
    assert_eq!(Message::Checksum.to_u8(), 10);
    assert_eq!(Message::CreateSourceClip.to_u8(), 13);
    assert_eq!(Message::DownloadChunk.to_u8(), 23);
    assert_eq!(Message::from_u8(24), None);
    assert_eq!(SERVER_PORT, 3001);
}

#[test]
fn decode_message_errors() {
    assert_eq!(decode_message(&[]), Err(MessageError::BufferEmpty));
    assert_eq!(decode_message(&[200]), Err(MessageError::Invalid));
    assert_eq!(decode_message(&[4, 1]), Ok(Message::Response));
}
