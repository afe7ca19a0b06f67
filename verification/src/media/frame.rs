//! Encoded media frames, and a bounded queue of them.
use vstd::prelude::*;
use std::time::Duration;
use bytes::Bytes;
use crate::buffer::{bytes_as_slice, bytes_contents};
use crate::error::{MediaFault, SfuError};
use crate::media::codec::{AnyCodec, CodecType};
use crate::media::depacketizer::vp9_is_key;

verus! {

/// What a frame carries.
#[derive(Clone, Copy, Debug, PartialEq, Eq, Structural)]
pub enum FrameType {
    /// Audio.
    Audio,
    /// A video frame that decodes on its own.
    VideoKey,
    /// A video frame that needs the frames before it.
    VideoDelta,
}

/// One encoded frame.
pub struct MediaFrame {
    pub frame_type: FrameType,
    pub codec_type: CodecType,
    pub data: Bytes,
    /// Timestamp in the media timebase.
    pub timestamp: u32,
    /// Nominal duration.
    pub duration: Duration,
    pub spatial_layer: Option<u8>,
    pub temporal_layer: Option<u8>,
}

/// The kind of frame that reassembled bytes of a codec are: audio for an
/// audio codec; for VP9 a key frame if the bytes say so; a delta frame for
/// any other video.
pub open spec fn classify(codec_type: CodecType, data: Seq<u8>) -> FrameType {
    if codec_type.spec_is_audio() {
        FrameType::Audio
    } else if codec_type == CodecType::VP9 && vp9_is_key(data) {
        FrameType::VideoKey
    } else {
        FrameType::VideoDelta
    }
}

/// The kind of frame that reassembled bytes of a codec are.
pub fn classify_frame(codec_type: CodecType, data: &[u8]) -> (t: FrameType)
    ensures
        t == classify(codec_type, data@),
{
    if codec_type.is_audio() {
        FrameType::Audio
    } else {
        match codec_type {
            CodecType::VP9 => {
                if data.len() > 0 && (data[0] & 0x01) == 0 {
                    FrameType::VideoKey
                } else {
                    FrameType::VideoDelta
                }
            },
            _ => FrameType::VideoDelta,
        }
    }
}

impl MediaFrame {
    /// An audio frame; the codec must be an audio codec.
    pub fn new_audio(codec_type: CodecType, data: Bytes, timestamp: u32, duration: Duration) -> (r:
        Result<MediaFrame, SfuError>)
        ensures
            match r {
                Ok(f) => codec_type.spec_is_audio() && f == (MediaFrame {
                    frame_type: FrameType::Audio,
                    codec_type,
                    data,
                    timestamp,
                    duration,
                    spatial_layer: None,
                    temporal_layer: None,
                }),
                Err(e) => !codec_type.spec_is_audio() && e == SfuError::Media(MediaFault::WrongKind),
            },
    {
        if !codec_type.is_audio() {
            return Err(SfuError::Media(MediaFault::WrongKind));
        }
        Ok(
            MediaFrame {
                frame_type: FrameType::Audio,
                codec_type,
                data,
                timestamp,
                duration,
                spatial_layer: None,
                temporal_layer: None,
            },
        )
    }

    /// A video key frame; the codec must be a video codec.
    pub fn new_video_key(
        codec_type: CodecType,
        data: Bytes,
        timestamp: u32,
        duration: Duration,
        spatial_layer: Option<u8>,
        temporal_layer: Option<u8>,
    ) -> (r: Result<MediaFrame, SfuError>)
        ensures
            match r {
                Ok(f) => codec_type.spec_is_video() && f == (MediaFrame {
                    frame_type: FrameType::VideoKey,
                    codec_type,
                    data,
                    timestamp,
                    duration,
                    spatial_layer,
                    temporal_layer,
                }),
                Err(e) => !codec_type.spec_is_video() && e == SfuError::Media(MediaFault::WrongKind),
            },
    {
        if !codec_type.is_video() {
            return Err(SfuError::Media(MediaFault::WrongKind));
        }
        Ok(
            MediaFrame {
                frame_type: FrameType::VideoKey,
                codec_type,
                data,
                timestamp,
                duration,
                spatial_layer,
                temporal_layer,
            },
        )
    }

    /// A video delta frame; the codec must be a video codec.
    pub fn new_video_delta(
        codec_type: CodecType,
        data: Bytes,
        timestamp: u32,
        duration: Duration,
        spatial_layer: Option<u8>,
        temporal_layer: Option<u8>,
    ) -> (r: Result<MediaFrame, SfuError>)
        ensures
            match r {
                Ok(f) => codec_type.spec_is_video() && f == (MediaFrame {
                    frame_type: FrameType::VideoDelta,
                    codec_type,
                    data,
                    timestamp,
                    duration,
                    spatial_layer,
                    temporal_layer,
                }),
                Err(e) => !codec_type.spec_is_video() && e == SfuError::Media(MediaFault::WrongKind),
            },
    {
        if !codec_type.is_video() {
            return Err(SfuError::Media(MediaFault::WrongKind));
        }
        Ok(
            MediaFrame {
                frame_type: FrameType::VideoDelta,
                codec_type,
                data,
                timestamp,
                duration,
                spatial_layer,
                temporal_layer,
            },
        )
    }

    /// The frame that bytes reassembled from a track of the given codec
    /// are, classified by their content.
    pub fn from_reassembled(codec_type: CodecType, data: Bytes, timestamp: u32, duration: Duration) -> (f:
        MediaFrame)
        ensures
            f == (MediaFrame {
                frame_type: classify(codec_type, bytes_contents(data)),
                codec_type,
                data,
                timestamp,
                duration,
                spatial_layer: None,
                temporal_layer: None,
            }),
    {
        let frame_type = classify_frame(codec_type, bytes_as_slice(&data));
        MediaFrame {
            frame_type,
            codec_type,
            data,
            timestamp,
            duration,
            spatial_layer: None,
            temporal_layer: None,
        }
    }

    /// Whether the frame carries audio.
    pub fn is_audio(&self) -> (r: bool)
        ensures
            r == (self.frame_type == FrameType::Audio),
    {
        matches!(self.frame_type, FrameType::Audio)
    }

    /// Whether the frame carries video.
    pub fn is_video(&self) -> (r: bool)
        ensures
            r == (self.frame_type != FrameType::Audio),
    {
        !matches!(self.frame_type, FrameType::Audio)
    }

    /// Whether the frame is a video key frame.
    pub fn is_key_frame(&self) -> (r: bool)
        ensures
            r == (self.frame_type == FrameType::VideoKey),
    {
        matches!(self.frame_type, FrameType::VideoKey)
    }

    /// The number of bytes of the frame.
    pub fn size(&self) -> (n: usize)
        ensures
            n == bytes_contents(self.data).len(),
    {
        bytes_as_slice(&self.data).len()
    }
}

/// Processes frames of one codec.
pub struct FrameProcessor {
    codec: AnyCodec,
}

impl FrameProcessor {
    /// The codec of this processor.
    pub closed spec fn spec_codec(&self) -> AnyCodec {
        self.codec
    }

    /// A processor for the codec.
    pub fn new(codec: AnyCodec) -> (p: FrameProcessor)
        ensures
            p.spec_codec() == codec,
    {
        FrameProcessor { codec }
    }

    /// Passes a frame through. The unit forwards frames as they are, so the
    /// frame is left unchanged.
    pub fn process_frame(&self, frame: &mut MediaFrame) -> (r: Result<(), SfuError>)
        ensures
            r.is_ok(),
            *final(frame) == *old(frame),
    {
        Ok(())
    }

    /// The codec of this processor.
    pub fn codec(&self) -> (c: &AnyCodec)
        ensures
            *c == self.spec_codec(),
    {
        &self.codec
    }
}

/// A queue of at most `max_size` frames; when it is full, the oldest frame
/// makes room.
pub struct FrameQueue {
    max_size: usize,
    frames: Vec<MediaFrame>,
}

impl FrameQueue {
    /// The frames waiting, oldest first.
    pub closed spec fn frames(&self) -> Seq<MediaFrame> {
        self.frames@
    }

    /// The most frames the queue holds.
    pub closed spec fn capacity(&self) -> usize {
        self.max_size
    }

    /// The queue holds no more than its capacity, which is at least one.
    pub open spec fn wf(&self) -> bool {
        1 <= self.capacity() && self.frames().len() <= self.capacity()
    }

    /// An empty queue of the given capacity.
    pub fn new(max_size: usize) -> (q: FrameQueue)
        requires
            max_size >= 1,
        ensures
            q.wf(),
            q.capacity() == max_size,
            q.frames() == Seq::<MediaFrame>::empty(),
    {
        FrameQueue { max_size, frames: Vec::new() }
    }

    /// Adds a frame at the back; a full queue first gives up its oldest
    /// frame.
    pub fn push(&mut self, frame: MediaFrame) -> (r: Result<(), SfuError>)
        requires
            old(self).wf(),
        ensures
            final(self).wf(),
            r.is_ok(),
            final(self).capacity() == old(self).capacity(),
            final(self).frames() == (if old(self).frames().len() >= old(self).capacity() {
                old(self).frames().skip(1).push(frame)
            } else {
                old(self).frames().push(frame)
            }),
    {
        if self.frames.len() >= self.max_size {
            self.frames.remove(0);
            assert(self.frames@ =~= old(self).frames@.skip(1));
        }
        self.frames.push(frame);
        Ok(())
    }

    /// Takes the oldest frame, if any.
    pub fn pop(&mut self) -> (r: Option<MediaFrame>)
        requires
            old(self).wf(),
        ensures
            final(self).wf(),
            final(self).capacity() == old(self).capacity(),
            match r {
                Some(f) => old(self).frames().len() > 0 && f == old(self).frames()[0]
                    && final(self).frames() == old(self).frames().skip(1),
                None => old(self).frames().len() == 0 && final(self).frames() == old(
                    self,
                ).frames(),
            },
    {
        if self.frames.len() == 0 {
            None
        } else {
            let f = self.frames.remove(0);
            assert(self.frames@ =~= old(self).frames@.skip(1));
            Some(f)
        }
    }

    /// The oldest frame, if any.
    pub fn peek(&self) -> (r: Option<&MediaFrame>)
        ensures
            match r {
                Some(f) => self.frames().len() > 0 && *f == self.frames()[0],
                None => self.frames().len() == 0,
            },
    {
        if self.frames.len() == 0 {
            None
        } else {
            Some(&self.frames[0])
        }
    }

    /// The number of frames waiting.
    pub fn len(&self) -> (n: usize)
        ensures
            n == self.frames().len(),
    {
        self.frames.len()
    }

    /// Whether no frame is waiting.
    pub fn is_empty(&self) -> (r: bool)
        ensures
            r == (self.frames().len() == 0),
    {
        self.frames.len() == 0
    }

    /// Drops every frame.
    pub fn clear(&mut self)
        ensures
            final(self).capacity() == old(self).capacity(),
            final(self).frames() == Seq::<MediaFrame>::empty(),
    {
        self.frames.clear();
    }
}

} // verus!
