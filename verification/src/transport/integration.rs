//! Media streams of a session: their direction and configuration.
use vstd::prelude::*;
use crate::media::codec::CodecType;

verus! {

/// Which way a stream carries media.
#[derive(Clone, Copy, Debug, PartialEq, Eq, Structural)]
pub enum StreamDirection {
    SendOnly,
    RecvOnly,
    SendRecv,
    Inactive,
}

impl StreamDirection {
    /// Whether a stream of this direction has a sender.
    pub open spec fn spec_sends(&self) -> bool {
        *self == StreamDirection::SendOnly || *self == StreamDirection::SendRecv
    }

    /// Whether a stream of this direction has a sender.
    #[verifier::when_used_as_spec(spec_sends)]
    pub fn sends(&self) -> (r: bool)
        ensures
            r == self.spec_sends(),
    {
        matches!(self, StreamDirection::SendOnly | StreamDirection::SendRecv)
    }

    /// Whether a stream of this direction has a receiver.
    pub open spec fn spec_receives(&self) -> bool {
        *self == StreamDirection::RecvOnly || *self == StreamDirection::SendRecv
    }

    /// Whether a stream of this direction has a receiver.
    #[verifier::when_used_as_spec(spec_receives)]
    pub fn receives(&self) -> (r: bool)
        ensures
            r == self.spec_receives(),
    {
        matches!(self, StreamDirection::RecvOnly | StreamDirection::SendRecv)
    }
}

/// Configuration of one media stream.
#[derive(Clone, Copy, Debug, PartialEq, Eq, Structural)]
pub struct MediaStreamConfig {
    pub direction: StreamDirection,
    pub codec_type: CodecType,
    pub payload_type: u8,
    pub ssrc: u32,
    pub max_bitrate: u32,
}

} // verus!
