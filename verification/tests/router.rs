use rust_sfu_iroh::error::{MediaFault, SfuError};
use rust_sfu_iroh::feedback::SimulcastControlMessage;
use rust_sfu_iroh::media::codec::CodecType;
use rust_sfu_iroh::media::depacketizer::RtpDepacketizer;
use rust_sfu_iroh::media::frame::FrameType;
use rust_sfu_iroh::media::packetizer::RtpPacketizer;
use rust_sfu_iroh::media::router::{
    assign_priority, choose_victim, DefaultMediaRouter, FrameLayer, OutboundQueue, PacketPriority,
    RoutableMediaPacket,
};
use rust_sfu_iroh::media::rtp::RtpPacket;
use rust_sfu_iroh::media::{MediaTrack, TrackKind};
use rust_sfu_iroh::session::DefaultSessionManager;
use rust_sfu_iroh::simulcast::manager::DefaultSimulcastManager;
use rust_sfu_iroh::simulcast::LayerGrid;

fn layer(id: u8) -> Option<FrameLayer> {
    Some(FrameLayer { layer_id: id, spatial_id: id, temporal_id: 0 })
}

#[test]
fn priorities_at_ingress() {
    assert_eq!(assign_priority(FrameType::Audio, None), PacketPriority::Critical);
    assert_eq!(assign_priority(FrameType::VideoKey, Some(2)), PacketPriority::Critical);
    assert_eq!(assign_priority(FrameType::VideoDelta, None), PacketPriority::High);
    assert_eq!(assign_priority(FrameType::VideoDelta, Some(0)), PacketPriority::High);
    assert_eq!(assign_priority(FrameType::VideoDelta, Some(1)), PacketPriority::Medium);
    assert_eq!(assign_priority(FrameType::VideoDelta, Some(2)), PacketPriority::Low);
}

#[test]
fn low_goes_first_then_medium_never_critical() {
    let (critical, high) = (PacketPriority::Critical, PacketPriority::High);
    let (medium, low) = (PacketPriority::Medium, PacketPriority::Low);
    assert_eq!(choose_victim(&vec![low, medium, low, critical, medium]), Some(2));
    assert_eq!(choose_victim(&vec![medium, critical, medium, high]), Some(2));
    assert_eq!(choose_victim(&vec![critical, high, high, critical]), Some(2));
    assert_eq!(choose_victim(&vec![critical, critical]), None);
    assert_eq!(choose_victim(&vec![]), None);
}

#[test]
fn solo_publisher_two_subscribers_no_loss() {
    let mut registry = DefaultSessionManager::new();
    let mut selector = DefaultSimulcastManager::new();
    let router = DefaultMediaRouter::new();
    let a = registry.create_session(vec![b'a'], 0).unwrap();
    let b = registry.create_session(vec![b'b'], 0).unwrap();
    let c = registry.create_session(vec![b'c'], 0).unwrap();
    let track = registry
        .register_published_track(a, MediaTrack::new(TrackKind::Audio, "opus".to_string(), Vec::new()))
        .unwrap();
    registry.register_subscribed_track(b, a, track).unwrap();
    registry.register_subscribed_track(c, a, track).unwrap();

    let mut publisher = RtpPacketizer::new(CodecType::Opus, 111, 1);
    let mut ingress = RtpDepacketizer::new(CodecType::Opus);
    let mut out_b = (RtpPacketizer::new(CodecType::Opus, 111, 100), RtpDepacketizer::new(CodecType::Opus), Vec::new());
    let mut out_c = (RtpPacketizer::new(CodecType::Opus, 111, 200), RtpDepacketizer::new(CodecType::Opus), Vec::new());
    let mut sent = Vec::new();
    for i in 0..100u32 {
        let frame: Vec<u8> = (0..40).map(|k| (i as u8).wrapping_mul(7).wrapping_add(k)).collect();
        sent.push((frame.clone(), i * 960));
        for packet in publisher.packetize(&frame, i * 960).unwrap() {
            let packet = RtpPacket::parse(&packet.serialize()).unwrap();
            let timestamp = packet.header.timestamp;
            let data = match ingress.process_packet(packet).unwrap() {
                Some(data) => data,
                None => continue,
            };
            let decision = router
                .get_forwarding_decision(&registry, &mut selector, track, FrameType::Audio, None)
                .unwrap();
            assert_eq!(decision.target_subscribers, vec![b, c]);
            assert!(!decision.adapt);
            for target in decision.target_subscribers {
                let leg = if target == b { &mut out_b } else { &mut out_c };
                for out in leg.0.packetize(&data, timestamp).unwrap() {
                    let received = RtpPacket::parse(&out.serialize()).unwrap();
                    let seq = received.header.sequence_number;
                    let ts = received.header.timestamp;
                    let got = leg.1.process_packet(received).unwrap().unwrap();
                    leg.2.push((got, ts, seq));
                }
            }
        }
    }
    for leg in [&out_b, &out_c] {
        assert_eq!(leg.2.len(), 100);
        for (i, (data, ts, seq)) in leg.2.iter().enumerate() {
            assert_eq!(data, &sent[i].0);
            assert_eq!(*ts, sent[i].1);
            assert_eq!(*seq, i as u16);
        }
        assert_eq!(leg.2[99].1, 95_040);
    }
}

#[test]
fn upgrade_is_not_forwarded_before_its_key_frame() {
    let mut registry = DefaultSessionManager::new();
    let mut selector = DefaultSimulcastManager::new();
    let router = DefaultMediaRouter::new();
    let a = registry.create_session(vec![1], 0).unwrap();
    let b = registry.create_session(vec![2], 0).unwrap();
    let track = registry
        .register_published_track(a, MediaTrack::new(TrackKind::Video, "VP9".to_string(), Vec::new()))
        .unwrap();
    registry.register_subscribed_track(b, a, track).unwrap();
    selector
        .register_track(
            track,
            a,
            &LayerGrid { spatial_layers: 3, temporal_layers: 1, bitrates: vec![500_000, 1_000_000, 2_000_000] },
        )
        .unwrap();
    for s in 1..3u8 {
        selector
            .process_control_message(
                SimulcastControlMessage::ActivateLayers { track_id: track, spatial_id: s, temporal_id: 0 },
                a,
            )
            .unwrap();
    }
    assert_eq!(selector.select_layer(track, b, 500_000, 0), Ok(0));
    assert_eq!(selector.select_layer(track, b, 2_500_000, 100), Ok(2));

    let mut decide = |selector: &mut DefaultSimulcastManager, t: FrameType, l: u8| {
        router
            .get_forwarding_decision(&registry, selector, track, t, layer(l))
            .unwrap()
            .target_subscribers
    };
    assert_eq!(decide(&mut selector, FrameType::VideoDelta, 0), vec![b]);
    assert_eq!(decide(&mut selector, FrameType::VideoDelta, 2), Vec::<u64>::new());
    assert_eq!(decide(&mut selector, FrameType::VideoDelta, 1), Vec::<u64>::new());
    assert_eq!(decide(&mut selector, FrameType::VideoKey, 1), Vec::<u64>::new());
    assert_eq!(selector.committed_layer(track, b).unwrap().layer_id, 0);
    assert_eq!(decide(&mut selector, FrameType::VideoKey, 2), vec![b]);
    assert_eq!(selector.committed_layer(track, b).unwrap().layer_id, 2);
    assert_eq!(decide(&mut selector, FrameType::VideoDelta, 2), vec![b]);
    assert_eq!(decide(&mut selector, FrameType::VideoDelta, 1), vec![b]);
}

#[test]
fn unknown_track_has_no_decision() {
    let registry = DefaultSessionManager::new();
    let mut selector = DefaultSimulcastManager::new();
    let router = DefaultMediaRouter::new();
    let r = router.get_forwarding_decision(&registry, &mut selector, 5, FrameType::Audio, None);
    assert!(matches!(r, Err(SfuError::Media(MediaFault::TrackNotFound))));
}

#[test]
fn subscriber_without_selection_gets_every_layer() {
    let mut selector = DefaultSimulcastManager::new();
    let router = DefaultMediaRouter::new();
    assert!(router.forward_to(&mut selector, 1, 2, FrameType::VideoDelta, layer(2)));
    assert!(router.forward_to(&mut selector, 1, 2, FrameType::VideoKey, None));
}

fn queued(tag: u8, priority: PacketPriority) -> RoutableMediaPacket {
    RoutableMediaPacket { track_id: 1, publisher_id: 1, packet: vec![tag], priority, timestamp_ms: 0 }
}

fn tags(q: &mut OutboundQueue) -> Vec<u8> {
    let mut out = Vec::new();
    while let Some(p) = q.dequeue() {
        out.push(p.packet[0]);
    }
    out
}

#[test]
fn full_queue_drops_by_priority() {
    let mut q = OutboundQueue::new(3);
    assert!(q.enqueue(queued(1, PacketPriority::Low)).is_none());
    assert!(q.enqueue(queued(2, PacketPriority::Critical)).is_none());
    assert!(q.enqueue(queued(3, PacketPriority::Medium)).is_none());
    let dropped = q.enqueue(queued(4, PacketPriority::High)).unwrap();
    assert_eq!(dropped.packet, vec![1]);
    let dropped = q.enqueue(queued(5, PacketPriority::Low)).unwrap();
    assert_eq!(dropped.packet, vec![5]);
    let dropped = q.enqueue(queued(6, PacketPriority::Critical)).unwrap();
    assert_eq!(dropped.packet, vec![3]);
    let dropped = q.enqueue(queued(7, PacketPriority::Critical)).unwrap();
    assert_eq!(dropped.packet, vec![4]);
    assert!(q.enqueue(queued(8, PacketPriority::Critical)).is_none());
    assert_eq!(q.len(), 4);
    assert_eq!(tags(&mut q), vec![2, 6, 7, 8]);
}

#[test]
fn packet_path_from_flow_to_decision() {
    let mut registry = DefaultSessionManager::new();
    let mut selector = DefaultSimulcastManager::new();
    let router = DefaultMediaRouter::new();
    let a = registry.create_session(vec![1], 0).unwrap();
    let b = registry.create_session(vec![2], 0).unwrap();
    let track = registry
        .register_published_track(a, MediaTrack::new(TrackKind::Video, "VP9".to_string(), Vec::new()))
        .unwrap();
    registry.register_subscribed_track(b, a, track).unwrap();
    let mut publisher = RtpPacketizer::new(CodecType::VP9, 98, 1);
    publisher.set_max_payload_size(4);
    let mut ingress = RtpDepacketizer::new(CodecType::VP9);

    let key = vec![0x02u8, 1, 2, 3, 4];
    let packets = publisher.packetize(&key, 3000).unwrap();
    assert_eq!(packets.len(), 2);
    let first = router
        .process_packet(&registry, &mut selector, &mut ingress, track, &packets[0].serialize(), None)
        .unwrap();
    assert!(first.is_none());
    let routed = router
        .process_packet(&registry, &mut selector, &mut ingress, track, &packets[1].serialize(), None)
        .unwrap()
        .unwrap();
    assert_eq!(routed.data, key);
    assert_eq!(routed.timestamp, 3000);
    assert_eq!(routed.frame_type, FrameType::VideoKey);
    assert_eq!(routed.priority, PacketPriority::Critical);
    assert_eq!(routed.target_subscribers, vec![b]);

    let delta = vec![0x03u8];
    let packets = publisher.packetize(&delta, 6000).unwrap();
    let routed = router
        .process_packet(&registry, &mut selector, &mut ingress, track, &packets[0].serialize(), layer(1))
        .unwrap()
        .unwrap();
    assert_eq!(routed.frame_type, FrameType::VideoDelta);
    assert_eq!(routed.priority, PacketPriority::Medium);
    assert_eq!(routed.target_subscribers, vec![b]);

    let r = router.process_packet(&registry, &mut selector, &mut ingress, track, &[1, 2, 3], None);
    assert!(matches!(r, Err(SfuError::Media(MediaFault::MalformedPacket))));
    let packets = publisher.packetize(&delta, 9000).unwrap();
    let r = router.process_packet(&registry, &mut selector, &mut ingress, track + 1, &packets[0].serialize(), None);
    assert!(matches!(r, Err(SfuError::Media(MediaFault::TrackNotFound))));
    let mut other = RtpDepacketizer::new(CodecType::H264);
    let r = router.process_packet(&registry, &mut selector, &mut other, track, &packets[0].serialize(), None);
    assert!(matches!(r, Err(SfuError::Media(MediaFault::UnsupportedCodec))));
}
