use cs310_shared::preview::{
    chunk_inpoint, chunk_ready, chunk_span, chunk_split_time, chunks_generated, generating_statuses, mark_chunk_generated,
    number_of_chunks, segment_location,
};
use cs310_shared::status::{VideoChunkStatus, VideoPreviewChunkStatus, VideoPreviewStatus};

#[test]
fn chunk_ranges_need_every_chunk_generated() {
    let mut s = generating_statuses(4, 1, 2, 77);
    assert_eq!(
        s,
        vec![
            VideoChunkStatus::NotGenerated,
            VideoChunkStatus::Generating(77),
            VideoChunkStatus::Generating(77),
            VideoChunkStatus::NotGenerated
        ]
    );
    assert!(!chunks_generated(&s, 1, 2));
    mark_chunk_generated(&mut s, 1);
    mark_chunk_generated(&mut s, 2);
    assert!(chunks_generated(&s, 1, 2));
    assert!(!chunks_generated(&s, 1, 3));
    assert!(!chunks_generated(&s, 2, 4));
    assert!(chunks_generated(&s, 3, 2));
    assert!(chunk_ready(&s, 2));
    assert!(!chunk_ready(&s, 0));
    assert!(!chunk_ready(&s, 9));
    assert_eq!(generating_statuses(2, 1, 0, 5), vec![VideoChunkStatus::NotGenerated; 2]);
}

#[test]
fn segment_files_pad_the_chunk_number() {
    assert_eq!(segment_location("/out", 7, "mp4"), "/out/segment000007.mp4");
    assert_eq!(segment_location("/out", 1234567, "ts"), "/out/segment1234567.ts");
    assert_eq!(segment_location("d", 0, "ts"), "d/segment000000.ts");
}

#[test]
fn client_chunk_steps() {
    let mut p = VideoPreviewStatus::Data(10, None, true, vec![VideoPreviewChunkStatus::Requested, VideoPreviewChunkStatus::Generated, VideoPreviewChunkStatus::NotRequested, VideoPreviewChunkStatus::Requested]);
    p.start_generating();
    match &p {
        VideoPreviewStatus::Data(d, _, v, data) => {
            assert_eq!(*d, 10);
            assert!(*v);
            assert_eq!(*data, vec![VideoPreviewChunkStatus::Generating, VideoPreviewChunkStatus::Generated, VideoPreviewChunkStatus::NotRequested, VideoPreviewChunkStatus::Generating]);
        }
        _ => panic!("lost its data"),
    }
    assert!(p.start_downloading());
    assert!(!p.start_downloading());
    match &p {
        VideoPreviewStatus::Data(_, _, _, data) => assert_eq!(data[1], VideoPreviewChunkStatus::Downloading),
        _ => panic!("lost its data"),
    }
    let mut q = VideoPreviewStatus::LengthRequested;
    q.start_generating();
    assert!(!q.start_downloading());
    assert!(matches!(q, VideoPreviewStatus::LengthRequested));
}

#[test]
fn codec_strings_name_each_stream() {
    use_codec();
}

fn use_codec() {
    let (s, video) = cs310_shared::preview::codec_string(&vec![vec![0x01, 0x64, 0x00, 0x1f, 0xff]], 2);
    assert_eq!(s, "video/mp2t; codecs=\"avc1.64001f,mp4a.40.2,mp4a.40.2\"");
    assert!(video);
    let (s, video) = cs310_shared::preview::codec_string(&vec![vec![0x01, 0x4d], vec![]], 0);
    assert_eq!(s, "video/mp2t; codecs=\"avc1.4d,avc1.\"");
    assert!(video);
    let (s, video) = cs310_shared::preview::codec_string(&Vec::new(), 1);
    assert_eq!(s, "video/mp2t; codecs=\"mp4a.40.2\"");
    assert!(!video);
}

#[test]
fn a_clip_is_rendered_in_ten_second_chunks() {
    assert_eq!(number_of_chunks(0), 0);
    assert_eq!(number_of_chunks(1), 1);
    assert_eq!(number_of_chunks(10_000), 1);
    assert_eq!(number_of_chunks(10_001), 2);
    assert_eq!(number_of_chunks(25_300), 3);
    assert_eq!(number_of_chunks(u64::MAX), u32::MAX);
    assert_eq!(chunk_inpoint(0), None);
    assert_eq!(chunk_inpoint(3), Some(30));
    // the whole clip, whole chunks, and a range that reaches the last chunk
    assert_eq!(chunk_span(25_300, 3, 0, 2), None);
    assert_eq!(chunk_span(25_300, 3, 0, 1), Some(20_000));
    assert_eq!(chunk_span(25_300, 3, 1, 2), Some(10_000));
    assert_eq!(chunk_span(25_307, 3, 2, 2), Some(7));
    assert_eq!(chunk_split_time(4, 4), 100_000_000_000);
    assert_eq!(chunk_split_time(4, 5), 10_000_000_000);
}
