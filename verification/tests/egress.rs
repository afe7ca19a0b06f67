use rust_sfu_iroh::error::{MediaFault, SfuError};
use rust_sfu_iroh::media::codec::CodecType;
use rust_sfu_iroh::media::depacketizer::RtpDepacketizer;
use rust_sfu_iroh::media::egress::OutboundLeg;
use rust_sfu_iroh::media::router::PacketPriority;
use rust_sfu_iroh::media::rtp::RtpPacket;

#[test]
fn leg_packetizes_and_queues_in_order() {
    let mut leg = OutboundLeg::new(2, 7, 1, CodecType::Opus, 111, 0xABCD, 30);
    assert_eq!(leg.subscriber_id(), 2);
    let mut receiver = RtpDepacketizer::new(CodecType::Opus);
    for i in 0..5u32 {
        assert_eq!(leg.send_frame(&[i as u8, 9], i * 960, PacketPriority::Critical, 77), Ok(0));
    }
    for i in 0..5u32 {
        let queued = leg.next_packet().unwrap();
        assert_eq!(queued.track_id, 7);
        assert_eq!(queued.publisher_id, 1);
        assert_eq!(queued.priority, PacketPriority::Critical);
        assert_eq!(queued.timestamp_ms, 77);
        let packet = RtpPacket::parse(&queued.packet).unwrap();
        assert_eq!(packet.header.ssrc, 0xABCD);
        assert_eq!(packet.header.sequence_number, i as u16);
        assert_eq!(packet.header.timestamp, i * 960);
        assert_eq!(receiver.process_packet(packet).unwrap(), Some(vec![i as u8, 9]));
    }
    assert!(leg.next_packet().is_none());
}

#[test]
fn full_leg_drops_low_priority_packets_first() {
    let mut leg = OutboundLeg::new(2, 7, 1, CodecType::Opus, 111, 1, 2);
    assert_eq!(leg.send_frame(&[1], 0, PacketPriority::Low, 0), Ok(0));
    assert_eq!(leg.send_frame(&[2], 0, PacketPriority::Critical, 0), Ok(0));
    assert_eq!(leg.send_frame(&[3], 0, PacketPriority::High, 0), Ok(1));
    assert_eq!(leg.send_frame(&[4], 0, PacketPriority::Low, 0), Ok(1));
    let first = RtpPacket::parse(&leg.next_packet().unwrap().packet).unwrap();
    let second = RtpPacket::parse(&leg.next_packet().unwrap().packet).unwrap();
    assert_eq!(first.payload.to_vec(), vec![2]);
    assert_eq!(second.payload.to_vec(), vec![3]);
    assert_eq!((first.header.sequence_number, second.header.sequence_number), (1, 2));
    assert!(leg.next_packet().is_none());
}

#[test]
fn leg_refuses_what_its_packetizer_refuses() {
    let mut leg = OutboundLeg::new(2, 7, 1, CodecType::AV1, 99, 1, 2);
    assert_eq!(
        leg.send_frame(&[1], 0, PacketPriority::High, 0),
        Err(SfuError::Media(MediaFault::UnsupportedCodec))
    );
    assert!(leg.next_packet().is_none());
}

#[test]
fn video_frame_takes_several_queue_places() {
    let mut leg = OutboundLeg::new(2, 7, 1, CodecType::VP9, 98, 1, 30);
    let frame: Vec<u8> = (0..3000u32).map(|i| i as u8).collect();
    assert_eq!(leg.send_frame(&frame, 5, PacketPriority::Critical, 0), Ok(0));
    let mut receiver = RtpDepacketizer::new(CodecType::VP9);
    let mut out = None;
    let mut n = 0;
    while let Some(queued) = leg.next_packet() {
        out = receiver.process_packet(RtpPacket::parse(&queued.packet).unwrap()).unwrap();
        n += 1;
    }
    assert_eq!(n, 3);
    assert_eq!(out, Some(frame));
}
