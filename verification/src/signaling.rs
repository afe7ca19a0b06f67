//! Signaling: the messages, their framing on the stream, and the state
//! machine that answers them and changes the registry.
use vstd::prelude::*;
use crate::buffer::be32;
use crate::error::{MediaFault, SessionFault, SfuError, SignalingFault};
use crate::feedback::{SessionId, TrackId};
use crate::media::rtp::{be32_at, lemma_be32_round_trip};
use crate::media::{MediaTrack, TrackKind};
use crate::session::{subscribe_outcome, DefaultSessionManager, GraphView};

verus! {

/// Audio or video, as capabilities name it.
#[derive(Clone, Copy, Debug, PartialEq, Eq, Structural)]
pub enum MediaType {
    Audio,
    Video,
}

/// One named parameter of a codec.
pub struct CodecParameter {
    pub name: String,
    pub value: String,
}

/// A codec that a side supports.
pub struct CodecCapability {
    pub name: String,
    pub media_type: MediaType,
    pub parameters: Vec<CodecParameter>,
}

/// What a client supports.
pub struct ClientCapabilities {
    pub codecs: Vec<CodecCapability>,
    pub max_bitrate: u32,
    pub simulcast_support: bool,
    pub feedback_support: bool,
}

/// What the server supports.
pub struct ServerCapabilities {
    pub codecs: Vec<CodecCapability>,
    pub max_bitrate: u32,
    pub simulcast_support: bool,
    pub feedback_support: bool,
}

/// Name and parameters of a track's codec.
pub struct CodecInfo {
    pub name: String,
    pub parameters: Vec<CodecParameter>,
}

/// One layer of a simulcast track. The frame rate is in thousandths of a
/// frame per second.
#[derive(Clone, Copy, Debug, PartialEq, Eq, Structural)]
pub struct LayerInfo {
    pub layer_id: u8,
    pub spatial_id: u8,
    pub temporal_id: u8,
    pub width: u32,
    pub height: u32,
    pub framerate_millis: u32,
    pub bitrate: u32,
}

/// The layers of a simulcast track.
pub struct SimulcastInfo {
    pub layers: Vec<LayerInfo>,
}

/// What signaling says of a track.
pub struct TrackInfo {
    pub track_id: TrackId,
    pub publisher_id: SessionId,
    pub kind: TrackKind,
    pub codec: CodecInfo,
    pub simulcast: Option<SimulcastInfo>,
}

/// The layer a subscriber would like.
#[derive(Clone, Copy, Debug, PartialEq, Eq, Structural)]
pub struct PreferredLayers {
    pub spatial_id: u8,
    pub temporal_id: u8,
}

/// What a subscriber asks for.
#[derive(Clone, Copy, Debug, PartialEq, Eq, Structural)]
pub struct SubscriptionParams {
    pub preferred_layers: Option<PreferredLayers>,
    pub max_bitrate: Option<u32>,
}

/// A signaling message.
#[allow(inconsistent_fields)]
pub enum SignalingMessage {
    SessionInit { capabilities: ClientCapabilities },
    SessionAck { session_id: SessionId, capabilities: ServerCapabilities },
    TrackPublish { track_info: TrackInfo },
    TrackPublishAck { track_id: TrackId },
    TrackSubscribe { track_id: TrackId, params: SubscriptionParams },
    TrackSubscribeAck { track_id: TrackId },
    TrackUnsubscribe { track_id: TrackId },
    TrackUnsubscribeAck { track_id: TrackId },
    AvailableTracks { tracks: Vec<TrackInfo> },
    Error { code: u32, message: String },
}

/// Where a signaling stream stands.
#[derive(Clone, Copy, Debug, PartialEq, Eq, Structural)]
pub enum ConnectionState {
    /// No session yet: only `SessionInit` is in order.
    AwaitingInit,
    /// The handshake is done.
    Established { session_id: SessionId },
}

/// What a message asks for, without its descriptive fields.
pub enum Request {
    SessionInit,
    Publish,
    Subscribe { track_id: TrackId },
    Unsubscribe { track_id: TrackId },
    /// Acknowledgements, notices and errors: nothing to do.
    Other,
}

/// What an answer says, without its descriptive fields.
pub enum Reply {
    Nothing,
    SessionAck { session_id: SessionId },
    PublishAck { track_id: TrackId },
    SubscribeAck { track_id: TrackId },
    UnsubscribeAck { track_id: TrackId },
    Error { code: u32 },
}

/// What a message asks for.
pub open spec fn request_of(message: SignalingMessage) -> Request {
    match message {
        SignalingMessage::SessionInit { .. } => Request::SessionInit,
        SignalingMessage::TrackPublish { .. } => Request::Publish,
        SignalingMessage::TrackSubscribe { track_id, .. } => Request::Subscribe { track_id },
        SignalingMessage::TrackUnsubscribe { track_id } => Request::Unsubscribe { track_id },
        _ => Request::Other,
    }
}

/// What an answer says.
pub open spec fn reply_of(answer: Option<SignalingMessage>) -> Reply {
    match answer {
        Some(SignalingMessage::SessionAck { session_id, .. }) => Reply::SessionAck { session_id },
        Some(SignalingMessage::TrackPublishAck { track_id }) => Reply::PublishAck { track_id },
        Some(SignalingMessage::TrackSubscribeAck { track_id }) => Reply::SubscribeAck { track_id },
        Some(SignalingMessage::TrackUnsubscribeAck { track_id }) => Reply::UnsubscribeAck {
            track_id,
        },
        Some(SignalingMessage::Error { code, .. }) => Reply::Error { code },
        _ => Reply::Nothing,
    }
}

/// The publisher of a track in a graph, if the track is published.
pub open spec fn publisher_of(g: GraphView, t: TrackId) -> Option<SessionId> {
    if g.has_track(t) {
        Some(choose|p: SessionId| g.tracks.contains((t, p)))
    } else {
        None
    }
}

/// One step of the signaling state machine: the registry's graph, the
/// stream's state and the answer after a request. A request out of order is
/// a protocol violation and changes nothing; a request that the registry
/// refuses is answered with the refusal's code and changes nothing.
pub open spec fn signaling_step(g: GraphView, state: ConnectionState, request: Request) -> (
    GraphView,
    ConnectionState,
    Reply,
) {
    let violation = (
        g,
        state,
        Reply::Error { code: SfuError::Signaling(SignalingFault::ProtocolViolation).spec_code() },
    );
    match request {
        Request::Other => (g, state, Reply::Nothing),
        Request::SessionInit => match state {
            ConnectionState::Established { .. } => violation,
            ConnectionState::AwaitingInit => if g.next_session_id == u64::MAX {
                (
                    g,
                    state,
                    Reply::Error {
                        code: SfuError::Session(SessionFault::IdsExhausted).spec_code(),
                    },
                )
            } else {
                (
                    GraphView {
                        sessions: g.sessions.insert(g.next_session_id),
                        next_session_id: (g.next_session_id + 1) as u64,
                        ..g
                    },
                    ConnectionState::Established { session_id: g.next_session_id },
                    Reply::SessionAck { session_id: g.next_session_id },
                )
            },
        },
        Request::Publish => match state {
            ConnectionState::AwaitingInit => violation,
            ConnectionState::Established { session_id } => if !g.sessions.contains(session_id) {
                (
                    g,
                    state,
                    Reply::Error { code: SfuError::Session(SessionFault::NotFound).spec_code() },
                )
            } else if g.next_track_id == u64::MAX {
                (
                    g,
                    state,
                    Reply::Error {
                        code: SfuError::Session(SessionFault::IdsExhausted).spec_code(),
                    },
                )
            } else {
                (
                    GraphView {
                        tracks: g.tracks.insert((g.next_track_id, session_id)),
                        next_track_id: (g.next_track_id + 1) as u64,
                        ..g
                    },
                    state,
                    Reply::PublishAck { track_id: g.next_track_id },
                )
            },
        },
        Request::Subscribe { track_id } => match state {
            ConnectionState::AwaitingInit => violation,
            ConnectionState::Established { session_id } => match publisher_of(g, track_id) {
                None => (
                    g,
                    state,
                    Reply::Error { code: SfuError::Media(MediaFault::TrackNotFound).spec_code() },
                ),
                Some(p) => match subscribe_outcome(g, session_id, p, track_id) {
                    Ok(()) => (
                        GraphView { edges: g.edges.insert((session_id, track_id, p)), ..g },
                        state,
                        Reply::SubscribeAck { track_id },
                    ),
                    Err(e) => (g, state, Reply::Error { code: e.spec_code() }),
                },
            },
        },
        Request::Unsubscribe { track_id } => match state {
            ConnectionState::AwaitingInit => violation,
            ConnectionState::Established { session_id } => if !g.sessions.contains(session_id) {
                (
                    g,
                    state,
                    Reply::Error { code: SfuError::Session(SessionFault::NotFound).spec_code() },
                )
            } else if !g.subscribed_tracks(session_id).contains(track_id) {
                (
                    g,
                    state,
                    Reply::Error { code: SfuError::Media(MediaFault::NotSubscribed).spec_code() },
                )
            } else {
                (
                    g.without_subscription(session_id, track_id),
                    state,
                    Reply::UnsubscribeAck { track_id },
                )
            },
        },
    }
}

/// The server's side of the signaling protocol.
pub struct DefaultSignalingProtocol {}

fn text(s: &str) -> (r: String)
    ensures
        r@ == s@,
{
    s.to_owned()
}

fn refusal(e: SfuError) -> (m: SignalingMessage)
    ensures
        reply_of(Some(m)) == (Reply::Error { code: e.spec_code() }),
{
    let message = match e {
        SfuError::Session(_) => text("session error"),
        SfuError::Media(_) => text("media error"),
        SfuError::Transport(_) => text("transport error"),
        SfuError::Signaling(_) => text("signaling error"),
        SfuError::Other => text("error"),
    };
    SignalingMessage::Error { code: e.code(), message }
}

impl DefaultSignalingProtocol {
    /// The protocol.
    pub fn new() -> (p: DefaultSignalingProtocol) {
        DefaultSignalingProtocol {  }
    }

    /// What the server announces: Opus and VP9, five megabits, simulcast
    /// and feedback.
    pub fn server_capabilities() -> (c: ServerCapabilities)
        ensures
            c.max_bitrate == 5_000_000,
            c.simulcast_support,
            c.feedback_support,
            c.codecs@.len() == 2,
            c.codecs@[0].name@ == "opus"@,
            c.codecs@[0].media_type == MediaType::Audio,
            c.codecs@[1].name@ == "VP9"@,
            c.codecs@[1].media_type == MediaType::Video,
    {
        let mut opus_parameters: Vec<CodecParameter> = Vec::new();
        opus_parameters.push(CodecParameter { name: text("minptime"), value: text("10") });
        opus_parameters.push(CodecParameter { name: text("useinbandfec"), value: text("1") });
        let mut vp9_parameters: Vec<CodecParameter> = Vec::new();
        vp9_parameters.push(CodecParameter { name: text("profile-id"), value: text("0") });
        let mut codecs: Vec<CodecCapability> = Vec::new();
        codecs.push(
            CodecCapability {
                name: text("opus"),
                media_type: MediaType::Audio,
                parameters: opus_parameters,
            },
        );
        codecs.push(
            CodecCapability {
                name: text("VP9"),
                media_type: MediaType::Video,
                parameters: vp9_parameters,
            },
        );
        ServerCapabilities {
            codecs,
            max_bitrate: 5_000_000,
            simulcast_support: true,
            feedback_support: true,
        }
    }

    /// The notice that goes to a subscriber when a track it was subscribed
    /// to is gone.
    pub fn track_gone_notice() -> (m: SignalingMessage)
        ensures
            reply_of(Some(m)) == (Reply::Error { code: 404 }),
    {
        refusal(SfuError::Media(MediaFault::TrackNotFound))
    }

    /// Answers one message from the participant `node_id` on a stream in
    /// `state`, changing the registry as the message asks.
    pub fn handle_message(
        &self,
        registry: &mut DefaultSessionManager,
        state: ConnectionState,
        node_id: Vec<u8>,
        message: SignalingMessage,
        now_ms: u64,
    ) -> (r: (ConnectionState, Option<SignalingMessage>))
        requires
            old(registry).wf(),
        ensures
            final(registry).wf(),
            (final(registry)@, r.0, reply_of(r.1)) == signaling_step(
                old(registry)@,
                state,
                request_of(message),
            ),
    {
        match message {
            SignalingMessage::SessionInit { capabilities } => match state {
                ConnectionState::Established { .. } => (
                    state,
                    Some(refusal(SfuError::Signaling(SignalingFault::ProtocolViolation))),
                ),
                ConnectionState::AwaitingInit => match registry.create_session(node_id, now_ms) {
                    Ok(session_id) => (
                        ConnectionState::Established { session_id },
                        Some(
                            SignalingMessage::SessionAck {
                                session_id,
                                capabilities: Self::server_capabilities(),
                            },
                        ),
                    ),
                    Err(e) => (state, Some(refusal(e))),
                },
            },
            SignalingMessage::TrackPublish { track_info } => match state {
                ConnectionState::AwaitingInit => (
                    state,
                    Some(refusal(SfuError::Signaling(SignalingFault::ProtocolViolation))),
                ),
                ConnectionState::Established { session_id } => {
                    let mut parameters: Vec<(String, String)> = Vec::new();
                    let mut i: usize = 0;
                    while i < track_info.codec.parameters.len()
                        invariant
                            i <= track_info.codec.parameters@.len(),
                        decreases track_info.codec.parameters@.len() - i,
                    {
                        parameters.push(
                            (
                                track_info.codec.parameters[i].name.clone(),
                                track_info.codec.parameters[i].value.clone(),
                            ),
                        );
                        i = i + 1;
                    }
                    let track = MediaTrack::new(track_info.kind, track_info.codec.name, parameters);
                    match registry.register_published_track(session_id, track) {
                        Ok(track_id) => (state, Some(SignalingMessage::TrackPublishAck { track_id })),
                        Err(e) => (state, Some(refusal(e))),
                    }
                },
            },
            SignalingMessage::TrackSubscribe { track_id, params } => match state {
                ConnectionState::AwaitingInit => (
                    state,
                    Some(refusal(SfuError::Signaling(SignalingFault::ProtocolViolation))),
                ),
                ConnectionState::Established { session_id } => {
                    match registry.track_publisher(track_id) {
                        None => (state, Some(refusal(SfuError::Media(MediaFault::TrackNotFound)))),
                        Some(p) => {
                            proof {
                                registry.lemma_wf();
                                let q = choose|q: SessionId| registry@.tracks.contains((track_id, q));
                                assert(registry@.tracks.contains((track_id, q)));
                                assert(p == q);
                            }
                            match registry.register_subscribed_track(session_id, p, track_id) {
                                Ok(()) => (
                                    state,
                                    Some(SignalingMessage::TrackSubscribeAck { track_id }),
                                ),
                                Err(e) => (state, Some(refusal(e))),
                            }
                        },
                    }
                },
            },
            SignalingMessage::TrackUnsubscribe { track_id } => match state {
                ConnectionState::AwaitingInit => (
                    state,
                    Some(refusal(SfuError::Signaling(SignalingFault::ProtocolViolation))),
                ),
                ConnectionState::Established { session_id } => {
                    match registry.unregister_subscribed_track(session_id, track_id) {
                        Ok(()) => (state, Some(SignalingMessage::TrackUnsubscribeAck { track_id })),
                        Err(e) => (state, Some(refusal(e))),
                    }
                },
            },
            _ => (state, None),
        }
    }
}

/// A message body on the stream: its length as four big-endian bytes, then
/// the body.
pub open spec fn framed(body: Seq<u8>) -> Seq<u8> {
    be32(body.len() as u32) + body
}

/// The first complete frame at the front of a buffer: the number of bytes
/// it takes and its body; nothing while the frame is not complete.
pub open spec fn first_frame(buf: Seq<u8>) -> Option<(int, Seq<u8>)> {
    if buf.len() < 4 {
        None
    } else {
        let n = be32_at(buf, 0) as int;
        if buf.len() < 4 + n {
            None
        } else {
            Some((4 + n, buf.subrange(4, 4 + n)))
        }
    }
}

/// Frames a message body for the stream. A body of 2^32 bytes or more has
/// no frame.
pub fn frame_message(body: &[u8]) -> (r: Option<Vec<u8>>)
    ensures
        match r {
            Some(out) => body@.len() <= u32::MAX && out@ == framed(body@),
            None => body@.len() > u32::MAX,
        },
{
    if body.len() > u32::MAX as usize {
        return None;
    }
    let n = body.len() as u32;
    let mut out: Vec<u8> = Vec::new();
    out.push((n >> 24) as u8);
    out.push(((n >> 16) & 0xff) as u8);
    out.push(((n >> 8) & 0xff) as u8);
    out.push((n & 0xff) as u8);
    assert(out@ =~= be32(n));
    out.extend_from_slice(body);
    Some(out)
}

/// Takes the first complete frame from the front of a buffer.
pub fn read_frame(buf: &[u8]) -> (r: Option<(usize, Vec<u8>)>)
    ensures
        match r {
            Some((used, body)) => first_frame(buf@) == Some((used as int, body@)),
            None => first_frame(buf@).is_none(),
        },
{
    if buf.len() < 4 {
        return None;
    }
    let n = ((buf[0] as u32) << 24) | ((buf[1] as u32) << 16) | ((buf[2] as u32) << 8) | (
    buf[3] as u32);
    if buf.len() - 4 < n as usize {
        return None;
    }
    let end: usize = 4 + n as usize;
    let body = vstd::slice::slice_to_vec(vstd::slice::slice_subrange(buf, 4, end));
    Some((end, body))
}

/// Reading a framed body gives the body back, whatever follows it.
pub proof fn lemma_frame_round_trip(body: Seq<u8>, rest: Seq<u8>)
    requires
        body.len() <= u32::MAX,
    ensures
        first_frame(framed(body) + rest) == Some((4 + body.len() as int, body)),
{
    let buf = framed(body) + rest;
    let n = body.len() as u32;
    assert(buf.subrange(0, 4) =~= be32(n));
    lemma_be32_round_trip(buf, 0, n);
    assert(buf.subrange(4, 4 + n as int) =~= body);
}

} // verus!
