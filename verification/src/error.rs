//! The error taxonomy of the forwarding unit.
use vstd::prelude::*;

verus! {

/// What went wrong with a participant session or the subscription graph.
#[derive(Clone, Copy, Debug, PartialEq, Eq, Structural)]
pub enum SessionFault {
    /// No live participant has the given session id.
    NotFound,
    /// A participant asked to subscribe to its own track.
    InvalidSelf,
    /// The id counter of the registry is exhausted.
    IdsExhausted,
}

/// What went wrong with a track, a codec, a layer or a packet.
#[derive(Clone, Copy, Debug, PartialEq, Eq, Structural)]
pub enum MediaFault {
    /// The codec is known but has no packetizer, depacketizer or factory.
    UnsupportedCodec,
    /// The codec name is none of the known ones.
    UnknownCodec,
    /// The bytes are not a complete RTP packet.
    MalformedPacket,
    /// No published track has the given id.
    TrackNotFound,
    /// The track has no layer with the given id or indices.
    LayerNotFound,
    /// The track belongs to another publisher.
    NotPublisher,
    /// The participant holds no subscription to the track.
    NotSubscribed,
    /// A frame of the wrong kind was given for the codec.
    WrongKind,
    /// The layer grid is empty, too large, or disagrees with its bitrates.
    InvalidLayers,
    /// The packet size limit leaves no room for frame bytes.
    InvalidPayloadSize,
}

/// What went wrong on a transport flow.
#[derive(Clone, Copy, Debug, PartialEq, Eq, Structural)]
pub enum TransportFault {
    /// The flow id counter is exhausted.
    FlowUnavailable,
}

/// What went wrong on the signaling stream.
#[derive(Clone, Copy, Debug, PartialEq, Eq, Structural)]
pub enum SignalingFault {
    /// The message is not allowed in the current state.
    ProtocolViolation,
}

/// Errors of the forwarding unit, by subsystem.
#[derive(Clone, Copy, Debug, PartialEq, Eq, Structural)]
pub enum SfuError {
    Session(SessionFault),
    Media(MediaFault),
    Transport(TransportFault),
    Signaling(SignalingFault),
    Other,
}

impl SfuError {
    /// The numeric code carried by an `Error` signaling message for this error.
    pub fn code(&self) -> (c: u32)
        ensures
            c == self.spec_code(),
    {
        match self {
            SfuError::Session(SessionFault::NotFound) => 404,
            SfuError::Media(MediaFault::TrackNotFound) => 404,
            SfuError::Media(MediaFault::LayerNotFound) => 404,
            SfuError::Session(SessionFault::InvalidSelf) => 400,
            SfuError::Media(MediaFault::MalformedPacket) => 400,
            SfuError::Media(MediaFault::WrongKind) => 400,
            SfuError::Media(MediaFault::InvalidLayers) => 400,
            SfuError::Media(MediaFault::InvalidPayloadSize) => 400,
            SfuError::Signaling(_) => 400,
            SfuError::Media(MediaFault::NotPublisher) => 403,
            SfuError::Media(MediaFault::NotSubscribed) => 409,
            SfuError::Media(MediaFault::UnsupportedCodec) => 415,
            SfuError::Media(MediaFault::UnknownCodec) => 415,
            SfuError::Session(SessionFault::IdsExhausted) => 503,
            SfuError::Transport(TransportFault::FlowUnavailable) => 503,
            SfuError::Other => 500,
        }
    }

    /// The numeric code carried by an `Error` signaling message for this error.
    pub open spec fn spec_code(&self) -> u32 {
        match *self {
            SfuError::Session(SessionFault::NotFound) => 404,
            SfuError::Media(MediaFault::TrackNotFound) => 404,
            SfuError::Media(MediaFault::LayerNotFound) => 404,
            SfuError::Session(SessionFault::InvalidSelf) => 400,
            SfuError::Media(MediaFault::MalformedPacket) => 400,
            SfuError::Media(MediaFault::WrongKind) => 400,
            SfuError::Media(MediaFault::InvalidLayers) => 400,
            SfuError::Media(MediaFault::InvalidPayloadSize) => 400,
            SfuError::Signaling(_) => 400,
            SfuError::Media(MediaFault::NotPublisher) => 403,
            SfuError::Media(MediaFault::NotSubscribed) => 409,
            SfuError::Media(MediaFault::UnsupportedCodec) => 415,
            SfuError::Media(MediaFault::UnknownCodec) => 415,
            SfuError::Session(SessionFault::IdsExhausted) => 503,
            SfuError::Transport(TransportFault::FlowUnavailable) => 503,
            SfuError::Other => 500,
        }
    }
}

} // verus!
