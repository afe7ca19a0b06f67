use bytes::Bytes;
use rust_sfu_iroh::error::{MediaFault, SfuError};
use rust_sfu_iroh::media::codec::{AnyCodec, CodecType, OpusCodec};
use rust_sfu_iroh::media::frame::{classify_frame, FrameProcessor, FrameQueue, FrameType, MediaFrame};
use std::time::Duration;

fn audio(ts: u32) -> MediaFrame {
    MediaFrame::new_audio(CodecType::Opus, Bytes::from(vec![1u8, 2, 3]), ts, Duration::from_millis(20)).unwrap()
}

#[test]
fn constructors_check_the_codec_kind() {
    let d = Duration::from_millis(33);
    assert!(matches!(
        MediaFrame::new_audio(CodecType::VP9, Bytes::new(), 0, d),
        Err(SfuError::Media(MediaFault::WrongKind))
    ));
    assert!(matches!(
        MediaFrame::new_video_key(CodecType::Opus, Bytes::new(), 0, d, None, None),
        Err(SfuError::Media(MediaFault::WrongKind))
    ));
    assert!(matches!(
        MediaFrame::new_video_delta(CodecType::Opus, Bytes::new(), 0, d, None, None),
        Err(SfuError::Media(MediaFault::WrongKind))
    ));
    let a = audio(5);
    assert!(a.is_audio() && !a.is_video() && !a.is_key_frame());
    assert_eq!(a.size(), 3);
    assert_eq!(a.timestamp, 5);
    let k = MediaFrame::new_video_key(CodecType::VP9, Bytes::from(vec![0u8; 10]), 1, d, Some(1), Some(2)).unwrap();
    assert!(k.is_video() && k.is_key_frame() && !k.is_audio());
    assert_eq!((k.spatial_layer, k.temporal_layer), (Some(1), Some(2)));
    let v = MediaFrame::new_video_delta(CodecType::AV1, Bytes::new(), 1, d, None, None).unwrap();
    assert!(v.is_video() && !v.is_key_frame());
    assert_eq!(v.size(), 0);
}

#[test]
fn classification_of_reassembled_bytes() {
    assert_eq!(classify_frame(CodecType::Opus, &[1]), FrameType::Audio);
    assert_eq!(classify_frame(CodecType::VP9, &[0x02, 9]), FrameType::VideoKey);
    assert_eq!(classify_frame(CodecType::VP9, &[0x03, 9]), FrameType::VideoDelta);
    assert_eq!(classify_frame(CodecType::VP9, &[]), FrameType::VideoDelta);
    assert_eq!(classify_frame(CodecType::H264, &[0x02]), FrameType::VideoDelta);
    let f = MediaFrame::from_reassembled(CodecType::VP9, Bytes::from(vec![0x10u8]), 7, Duration::from_millis(33));
    assert!(f.is_key_frame());
    assert_eq!(f.timestamp, 7);
}

#[test]
fn queue_drops_the_oldest_when_full() {
    let mut q = FrameQueue::new(2);
    assert!(q.is_empty());
    assert!(q.peek().is_none());
    assert!(q.pop().is_none());
    q.push(audio(1)).unwrap();
    q.push(audio(2)).unwrap();
    assert_eq!(q.len(), 2);
    q.push(audio(3)).unwrap();
    assert_eq!(q.len(), 2);
    assert_eq!(q.peek().unwrap().timestamp, 2);
    assert_eq!(q.pop().unwrap().timestamp, 2);
    assert_eq!(q.pop().unwrap().timestamp, 3);
    assert!(q.pop().is_none());
    q.push(audio(4)).unwrap();
    q.clear();
    assert_eq!(q.len(), 0);
}

#[test]
fn processor_leaves_frames_as_they_are() {
    let p = FrameProcessor::new(AnyCodec::Opus(OpusCodec::new()));
    assert_eq!(p.codec().codec_type(), CodecType::Opus);
    let mut f = audio(9);
    assert_eq!(p.process_frame(&mut f), Ok(()));
    assert_eq!(f.timestamp, 9);
    assert_eq!(f.data.to_vec(), vec![1, 2, 3]);
}
