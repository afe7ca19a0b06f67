use rust_sfu_iroh::feedback::{
    BandwidthEstimation, BandwidthTrend, FeedbackAction, FeedbackMessage, PictureLossIndication,
    DefaultFeedbackManager, ReceiverReport, SimulcastControlMessage,
};
use rust_sfu_iroh::bandwidth::DefaultBandwidthManager;
use rust_sfu_iroh::error::{MediaFault, SessionFault, SfuError, SignalingFault, TransportFault};
use rust_sfu_iroh::media::TrackKind;
use rust_sfu_iroh::session::DefaultSessionManager;
use rust_sfu_iroh::sfu::{disconnect, has_timed_out, SfuConfig, INACTIVITY_TIMEOUT_MS};
use rust_sfu_iroh::signaling::{
    frame_message, read_frame, ClientCapabilities, CodecInfo, ConnectionState,
    DefaultSignalingProtocol, MediaType, SignalingMessage, SubscriptionParams, TrackInfo,
};
use rust_sfu_iroh::simulcast::manager::DefaultSimulcastManager;
use rust_sfu_iroh::simulcast::LayerGrid;
use rust_sfu_iroh::transport::integration::StreamDirection;
use rust_sfu_iroh::transport::{DefaultMediaTransport, FlowIds};

fn init() -> SignalingMessage {
    SignalingMessage::SessionInit {
        capabilities: ClientCapabilities {
            codecs: Vec::new(),
            max_bitrate: 1_000_000,
            simulcast_support: true,
            feedback_support: true,
        },
    }
}

fn publish() -> SignalingMessage {
    SignalingMessage::TrackPublish {
        track_info: TrackInfo {
            track_id: 0,
            publisher_id: 0,
            kind: TrackKind::Audio,
            codec: CodecInfo { name: "opus".to_string(), parameters: Vec::new() },
            simulcast: None,
        },
    }
}

fn subscribe(track_id: u64) -> SignalingMessage {
    SignalingMessage::TrackSubscribe {
        track_id,
        params: SubscriptionParams { preferred_layers: None, max_bitrate: None },
    }
}

fn code(m: Option<SignalingMessage>) -> u32 {
    match m {
        Some(SignalingMessage::Error { code, .. }) => code,
        _ => panic!("not an error"),
    }
}

fn join(p: &DefaultSignalingProtocol, r: &mut DefaultSessionManager) -> (ConnectionState, u64) {
    let (state, answer) = p.handle_message(r, ConnectionState::AwaitingInit, vec![1], init(), 0);
    match answer {
        Some(SignalingMessage::SessionAck { session_id, capabilities }) => {
            assert_eq!(state, ConnectionState::Established { session_id });
            assert_eq!(capabilities.max_bitrate, 5_000_000);
            assert!(capabilities.simulcast_support && capabilities.feedback_support);
            assert_eq!(capabilities.codecs.len(), 2);
            assert_eq!(capabilities.codecs[0].name, "opus");
            assert_eq!(capabilities.codecs[0].media_type, MediaType::Audio);
            assert_eq!(capabilities.codecs[1].name, "VP9");
            assert_eq!(capabilities.codecs[1].media_type, MediaType::Video);
            (state, session_id)
        }
        _ => panic!("no ack"),
    }
}

#[test]
fn handshake_publish_subscribe_unsubscribe() {
    let p = DefaultSignalingProtocol::new();
    let mut r = DefaultSessionManager::new();
    let (sa, a) = join(&p, &mut r);
    let (sb, b) = join(&p, &mut r);
    assert_eq!((a, b), (1, 2));
    let (_, answer) = p.handle_message(&mut r, sa, vec![], publish(), 0);
    let track = match answer {
        Some(SignalingMessage::TrackPublishAck { track_id }) => track_id,
        _ => panic!("no ack"),
    };
    assert_eq!(r.get_published_tracks(a), Ok(vec![track]));
    let (_, answer) = p.handle_message(&mut r, sb, vec![], subscribe(track), 0);
    assert!(matches!(answer, Some(SignalingMessage::TrackSubscribeAck { track_id }) if track_id == track));
    assert_eq!(r.get_subscribers(track), vec![b]);
    let (_, answer) = p.handle_message(&mut r, sb, vec![], SignalingMessage::TrackUnsubscribe { track_id: track }, 0);
    assert!(matches!(answer, Some(SignalingMessage::TrackUnsubscribeAck { track_id }) if track_id == track));
    assert_eq!(r.get_subscribers(track), Vec::<u64>::new());
    let (_, answer) = p.handle_message(&mut r, sb, vec![], SignalingMessage::TrackUnsubscribe { track_id: track }, 0);
    assert_eq!(code(answer), 409);
}

#[test]
fn requests_out_of_order_are_violations() {
    let p = DefaultSignalingProtocol::new();
    let mut r = DefaultSessionManager::new();
    let idle = ConnectionState::AwaitingInit;
    for m in [publish(), subscribe(1), SignalingMessage::TrackUnsubscribe { track_id: 1 }] {
        let (state, answer) = p.handle_message(&mut r, idle, vec![], m, 0);
        assert_eq!(state, idle);
        assert_eq!(code(answer), 400);
    }
    let (s, _) = join(&p, &mut r);
    let (state, answer) = p.handle_message(&mut r, s, vec![], init(), 0);
    assert_eq!(state, s);
    assert_eq!(code(answer), 400);
    assert_eq!(r.get_all_sessions().len(), 1);
}

#[test]
fn refusals_carry_their_code() {
    let p = DefaultSignalingProtocol::new();
    let mut r = DefaultSessionManager::new();
    let (sa, _) = join(&p, &mut r);
    let (_, answer) = p.handle_message(&mut r, sa, vec![], subscribe(42), 0);
    assert_eq!(code(answer), 404);
    let (_, answer) = p.handle_message(&mut r, sa, vec![], publish(), 0);
    let track = match answer {
        Some(SignalingMessage::TrackPublishAck { track_id }) => track_id,
        _ => panic!("no ack"),
    };
    let (_, answer) = p.handle_message(&mut r, sa, vec![], subscribe(track), 0);
    assert_eq!(code(answer), 400);
    let gone = ConnectionState::Established { session_id: 99 };
    let (_, answer) = p.handle_message(&mut r, gone, vec![], publish(), 0);
    assert_eq!(code(answer), 404);
    assert_eq!(code(Some(DefaultSignalingProtocol::track_gone_notice())), 404);
}

#[test]
fn notices_need_no_answer() {
    let p = DefaultSignalingProtocol::new();
    let mut r = DefaultSessionManager::new();
    let idle = ConnectionState::AwaitingInit;
    for m in [
        SignalingMessage::TrackPublishAck { track_id: 1 },
        SignalingMessage::TrackSubscribeAck { track_id: 1 },
        SignalingMessage::TrackUnsubscribeAck { track_id: 1 },
        SignalingMessage::AvailableTracks { tracks: Vec::new() },
        SignalingMessage::Error { code: 1, message: String::new() },
    ] {
        let (state, answer) = p.handle_message(&mut r, idle, vec![], m, 0);
        assert_eq!(state, idle);
        assert!(answer.is_none());
    }
}

#[test]
fn error_codes() {
    assert_eq!(SfuError::Session(SessionFault::NotFound).code(), 404);
    assert_eq!(SfuError::Session(SessionFault::InvalidSelf).code(), 400);
    assert_eq!(SfuError::Session(SessionFault::IdsExhausted).code(), 503);
    assert_eq!(SfuError::Media(MediaFault::TrackNotFound).code(), 404);
    assert_eq!(SfuError::Media(MediaFault::LayerNotFound).code(), 404);
    assert_eq!(SfuError::Media(MediaFault::NotPublisher).code(), 403);
    assert_eq!(SfuError::Media(MediaFault::NotSubscribed).code(), 409);
    assert_eq!(SfuError::Media(MediaFault::UnsupportedCodec).code(), 415);
    assert_eq!(SfuError::Media(MediaFault::UnknownCodec).code(), 415);
    assert_eq!(SfuError::Media(MediaFault::MalformedPacket).code(), 400);
    assert_eq!(SfuError::Media(MediaFault::WrongKind).code(), 400);
    assert_eq!(SfuError::Media(MediaFault::InvalidLayers).code(), 400);
    assert_eq!(SfuError::Media(MediaFault::InvalidPayloadSize).code(), 400);
    assert_eq!(SfuError::Transport(TransportFault::FlowUnavailable).code(), 503);
    assert_eq!(SfuError::Signaling(SignalingFault::ProtocolViolation).code(), 400);
    assert_eq!(SfuError::Other.code(), 500);
}

#[test]
fn frames_have_a_big_endian_length() {
    let framed = frame_message(&[7, 8, 9]).unwrap();
    assert_eq!(framed, vec![0, 0, 0, 3, 7, 8, 9]);
    assert_eq!(frame_message(&[]).unwrap(), vec![0, 0, 0, 0]);
    let long = vec![5u8; 0x0102];
    let framed = frame_message(&long).unwrap();
    assert_eq!(&framed[..4], &[0, 0, 1, 2]);
    let mut stream = framed.clone();
    stream.extend_from_slice(&[0, 0, 0, 1]);
    assert_eq!(read_frame(&stream), Some((4 + 0x0102, long)));
    assert_eq!(read_frame(&stream[4 + 0x0102..]), None);
    assert_eq!(read_frame(&[0, 0, 0]), None);
    assert_eq!(read_frame(&[0, 0, 0, 2, 1]), None);
    assert_eq!(read_frame(&[0, 0, 0, 0, 1]), Some((4, vec![])));
}

#[test]
fn flow_ids_rise_in_two_namespaces() {
    let mut f = DefaultMediaTransport::new().create_session();
    assert_eq!(f.new_send_flow(), Ok(0));
    assert_eq!(f.new_send_flow(), Ok(1));
    assert_eq!(f.new_receive_flow(), Ok(0));
    assert_eq!(f.new_send_flow(), Ok(2));
    assert_eq!(f.new_receive_flow(), Ok(1));
    let mut g = FlowIds::new();
    assert_eq!(g.new_receive_flow(), Ok(0));
}

#[test]
fn stream_directions() {
    assert!(StreamDirection::SendOnly.sends() && !StreamDirection::SendOnly.receives());
    assert!(!StreamDirection::RecvOnly.sends() && StreamDirection::RecvOnly.receives());
    assert!(StreamDirection::SendRecv.sends() && StreamDirection::SendRecv.receives());
    assert!(!StreamDirection::Inactive.sends() && !StreamDirection::Inactive.receives());
}

#[test]
fn standard_configuration() {
    let c = SfuConfig::default();
    assert_eq!(c, SfuConfig::standard());
    assert_eq!(c.max_participants, 100);
    assert_eq!(c.max_bitrate_per_participant, 5_000_000);
    assert!(c.enable_simulcast && c.enable_feedback);
    assert!(c.admits(99));
    assert!(!c.admits(100));
}

#[test]
fn feedback_goes_to_its_manager() {
    let f = DefaultFeedbackManager::new();
    let mut bandwidth = DefaultBandwidthManager::new();
    let mut selector = DefaultSimulcastManager::new();
    selector
        .register_track(7, 1, &LayerGrid { spatial_layers: 2, temporal_layers: 1, bitrates: vec![1, 2] })
        .unwrap();
    let report = FeedbackMessage::ReceiverReport(ReceiverReport {
        session_id: 2,
        track_id: 7,
        packet_loss_permille: 10,
        jitter_us: 1500,
        rtt_ms: 40,
        received_bitrate: 1,
    });
    assert_eq!(f.process_feedback(report, 2, &mut bandwidth, &mut selector, 0), Ok(FeedbackAction::Record));
    let pli = FeedbackMessage::PictureLossIndication(PictureLossIndication { session_id: 2, track_id: 7 });
    assert_eq!(
        f.process_feedback(pli, 2, &mut bandwidth, &mut selector, 0),
        Ok(FeedbackAction::RequestKeyFrame { track_id: 7 })
    );
    let activate = FeedbackMessage::SimulcastControl(SimulcastControlMessage::ActivateLayers {
        track_id: 7,
        spatial_id: 1,
        temporal_id: 0,
    });
    assert_eq!(
        f.process_feedback(activate, 2, &mut bandwidth, &mut selector, 0),
        Err(SfuError::Media(MediaFault::NotPublisher))
    );
    assert_eq!(f.process_feedback(activate, 1, &mut bandwidth, &mut selector, 0), Ok(FeedbackAction::Done));
    assert!(selector.get_available_layers(7).unwrap()[1].active);
    let estimate = FeedbackMessage::BandwidthEstimation(BandwidthEstimation {
        session_id: 2,
        available_bandwidth: 900,
        trend: BandwidthTrend::Stable,
    });
    assert_eq!(bandwidth.get_bandwidth_trend(2), None);
    assert_eq!(f.process_feedback(estimate, 2, &mut bandwidth, &mut selector, 0), Ok(FeedbackAction::Done));
    assert_eq!(bandwidth.get_bandwidth_trend(2), Some(BandwidthTrend::Stable));
}

#[test]
fn timeouts() {
    assert_eq!(INACTIVITY_TIMEOUT_MS, 60_000);
    assert!(has_timed_out(1_000, 61_000, INACTIVITY_TIMEOUT_MS));
    assert!(!has_timed_out(1_000, 60_999, INACTIVITY_TIMEOUT_MS));
    assert!(!has_timed_out(1_000, 0, 0));
    assert!(has_timed_out(1_000, 1_000, 0));
}

#[test]
fn publisher_disconnects_and_subscribers_are_owed_a_notice() {
    let p = DefaultSignalingProtocol::new();
    let mut r = DefaultSessionManager::new();
    let mut selector = DefaultSimulcastManager::new();
    let (sa, a) = join(&p, &mut r);
    let (sb, b) = join(&p, &mut r);
    let (_, answer) = p.handle_message(&mut r, sa, vec![], publish(), 0);
    let track = match answer {
        Some(SignalingMessage::TrackPublishAck { track_id }) => track_id,
        _ => panic!("no ack"),
    };
    p.handle_message(&mut r, sb, vec![], subscribe(track), 0);
    selector
        .register_track(track, a, &LayerGrid { spatial_layers: 1, temporal_layers: 1, bitrates: vec![1] })
        .unwrap();
    selector.select_layer(track, b, 10, 0).unwrap();

    let notices = disconnect(&mut r, &mut selector, a).unwrap();
    assert_eq!(notices, vec![(b, track)]);
    assert_eq!(code(Some(DefaultSignalingProtocol::track_gone_notice())), 404);
    assert_eq!(r.get_subscribed_tracks(b), Ok(vec![]));
    assert_eq!(r.get_all_sessions(), vec![b]);
    assert_eq!(selector.get_available_layers(track), Err(SfuError::Media(MediaFault::TrackNotFound)));
    assert_eq!(
        disconnect(&mut r, &mut selector, a),
        Err(SfuError::Session(SessionFault::NotFound))
    );
}

#[test]
fn subscriber_disconnects_and_its_selection_is_forgotten() {
    let p = DefaultSignalingProtocol::new();
    let mut r = DefaultSessionManager::new();
    let mut selector = DefaultSimulcastManager::new();
    let (sa, a) = join(&p, &mut r);
    let (sb, b) = join(&p, &mut r);
    let (sc, c) = join(&p, &mut r);
    let (_, answer) = p.handle_message(&mut r, sa, vec![], publish(), 0);
    let track = match answer {
        Some(SignalingMessage::TrackPublishAck { track_id }) => track_id,
        _ => panic!("no ack"),
    };
    p.handle_message(&mut r, sb, vec![], subscribe(track), 0);
    p.handle_message(&mut r, sc, vec![], subscribe(track), 0);
    selector
        .register_track(track, a, &LayerGrid { spatial_layers: 1, temporal_layers: 1, bitrates: vec![1] })
        .unwrap();
    selector.select_layer(track, b, 10, 0).unwrap();
    selector.select_layer(track, c, 10, 0).unwrap();
    assert_eq!(disconnect(&mut r, &mut selector, b), Ok(vec![]));
    assert_eq!(selector.subscription(track, b), None);
    assert!(selector.subscription(track, c).is_some());
    assert_eq!(r.get_subscribers(track), vec![c]);
    assert!(selector.get_available_layers(track).is_ok());
}
