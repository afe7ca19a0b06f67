//! Media: codecs, frames, RTP framing and routing decisions.
pub mod codec;
pub mod rtp;
pub mod packetizer;
pub mod depacketizer;
pub mod arrival;
pub mod frame;
pub mod router;
pub mod egress;

use vstd::prelude::*;

verus! {

/// Whether a track carries audio or video.
#[derive(Clone, Copy, Debug, PartialEq, Eq, Hash, Structural)]
pub enum TrackKind {
    Audio,
    Video,
}

/// What a publisher announces of a track: its kind and its codec.
pub struct MediaTrack {
    kind: TrackKind,
    codec_name: String,
    codec_parameters: Vec<(String, String)>,
}

impl MediaTrack {
    /// Audio or video.
    pub closed spec fn spec_kind(&self) -> TrackKind {
        self.kind
    }

    /// The codec's name.
    pub closed spec fn spec_codec_name(&self) -> Seq<char> {
        self.codec_name@
    }

    /// The codec's parameters, as (name, value) pairs.
    pub closed spec fn spec_codec_parameters(&self) -> Seq<(String, String)> {
        self.codec_parameters@
    }

    /// A track descriptor of the given kind and codec.
    pub fn new(kind: TrackKind, codec_name: String, codec_parameters: Vec<(String, String)>) -> (t:
        MediaTrack)
        ensures
            t.spec_kind() == kind,
            t.spec_codec_name() == codec_name@,
            t.spec_codec_parameters() == codec_parameters@,
    {
        MediaTrack { kind, codec_name, codec_parameters }
    }

    /// Audio or video.
    pub fn kind(&self) -> (k: TrackKind)
        ensures
            k == self.spec_kind(),
    {
        self.kind
    }

    /// The codec's name.
    pub fn codec_name(&self) -> (n: &str)
        ensures
            n@ == self.spec_codec_name(),
    {
        self.codec_name.as_str()
    }

    /// The codec's parameters, as (name, value) pairs.
    pub fn codec_parameters(&self) -> (ps: &Vec<(String, String)>)
        ensures
            ps@ == self.spec_codec_parameters(),
    {
        &self.codec_parameters
    }
}

} // verus!
