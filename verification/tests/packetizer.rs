use bytes::Bytes;
use rust_sfu_iroh::error::{MediaFault, SfuError};
use rust_sfu_iroh::media::codec::CodecType;
use rust_sfu_iroh::media::depacketizer::RtpDepacketizer;
use rust_sfu_iroh::media::packetizer::RtpPacketizer;
use rust_sfu_iroh::media::rtp::{RtpHeader, RtpPacket};

fn vp9_packet(seq: u16, marker: bool, payload: Vec<u8>) -> RtpPacket {
    RtpPacket::new(
        RtpHeader {
            version: 2,
            padding: false,
            extension: false,
            csrc_count: 0,
            marker,
            payload_type: 98,
            sequence_number: seq,
            timestamp: 9000,
            ssrc: 1,
            csrc: Vec::new(),
            extension_data: None,
        },
        Bytes::from(payload),
    )
}

#[test]
fn opus_packetizer_makes_one_marked_packet() {
    let mut p = RtpPacketizer::new(CodecType::Opus, 111, 0x1234);
    let packets = p.packetize(&[1, 2, 3], 960).unwrap();
    assert_eq!(packets.len(), 1);
    let h = &packets[0].header;
    assert_eq!(h.version, 2);
    assert!(h.marker);
    assert_eq!(h.payload_type, 111);
    assert_eq!(h.ssrc, 0x1234);
    assert_eq!(h.sequence_number, 0);
    assert_eq!(h.timestamp, 960);
    assert_eq!(packets[0].payload.to_vec(), vec![1, 2, 3]);
    assert_eq!(p.next_sequence_number(), 1);
}

#[test]
fn opus_sequence_wraps() {
    let mut p = RtpPacketizer::new(CodecType::Opus, 111, 1);
    let mut last = 0u16;
    for i in 0..65537u32 {
        let packets = p.packetize(&[0], i).unwrap();
        last = packets[0].header.sequence_number;
    }
    assert_eq!(last, 0);
    assert_eq!(p.next_sequence_number(), 1);
}

#[test]
fn opus_stream_keeps_order_payload_and_timestamps() {
    let mut sender = RtpPacketizer::new(CodecType::Opus, 111, 7);
    let mut receiver = RtpDepacketizer::new(CodecType::Opus);
    let mut previous: Option<u16> = None;
    for i in 0..100u32 {
        let frame: Vec<u8> = vec![i as u8, (i * 3) as u8, 0xAA];
        let packets = sender.packetize(&frame, i * 960).unwrap();
        assert_eq!(packets.len(), 1);
        let wire = packets[0].serialize();
        let packet = RtpPacket::parse(&wire).unwrap();
        assert_eq!(packet.header.timestamp, i * 960);
        if let Some(prev) = previous {
            assert_eq!(packet.header.sequence_number, prev.wrapping_add(1));
        }
        previous = Some(packet.header.sequence_number);
        let out = receiver.process_packet(packet).unwrap();
        assert_eq!(out, Some(frame));
    }
}

#[test]
fn vp9_fragmentation_of_3000_bytes() {
    let frame: Vec<u8> = (0..3000u32).map(|i| (i % 251) as u8).collect();
    let mut p = RtpPacketizer::new(CodecType::VP9, 98, 5);
    let first = p.next_sequence_number();
    let packets = p.packetize(&frame, 4242).unwrap();
    assert_eq!(packets.len(), 3);
    for (i, packet) in packets.iter().enumerate() {
        assert_eq!(packet.header.timestamp, 4242);
        assert_eq!(packet.header.sequence_number, first.wrapping_add(i as u16));
        assert_eq!(packet.header.marker, i == 2);
        assert_eq!(packet.payload[0] & 0x80 != 0, i == 0);
        assert_eq!(packet.payload[0] & 0x40 != 0, i == 2);
        assert!(packet.payload.len() <= 1200);
    }
    assert_eq!(packets[0].payload.len(), 1200);
    assert_eq!(packets[1].payload.len(), 1200);
    assert_eq!(packets[2].payload.len(), 603);
    assert_eq!(p.next_sequence_number(), first.wrapping_add(3));
    let mut d = RtpDepacketizer::new(CodecType::VP9);
    let mut out = None;
    let mut arrivals = 0;
    for packet in packets {
        arrivals += 1;
        out = d.process_packet(packet).unwrap();
        if arrivals < 3 {
            assert_eq!(out, None);
        }
    }
    assert_eq!(arrivals, 3);
    assert_eq!(out, Some(frame));
    assert_eq!(d.buffered(), 0);
}

#[test]
fn vp9_round_trip_with_small_limit() {
    let frame: Vec<u8> = vec![2, 4, 6, 8, 10, 12, 14];
    let mut p = RtpPacketizer::new(CodecType::VP9, 98, 5);
    p.set_max_payload_size(4);
    let packets = p.packetize(&frame, 1).unwrap();
    assert_eq!(packets.len(), 3);
    assert_eq!(packets[0].payload.to_vec(), vec![0x80, 2, 4, 6]);
    assert_eq!(packets[1].payload.to_vec(), vec![0x00, 8, 10, 12]);
    assert_eq!(packets[2].payload.to_vec(), vec![0x40, 14]);
    let mut d = RtpDepacketizer::new(CodecType::VP9);
    let mut out = None;
    for packet in packets {
        out = d.process_packet(packet).unwrap();
    }
    assert_eq!(out, Some(frame));
}

#[test]
fn vp9_single_fragment_has_both_bits() {
    let mut p = RtpPacketizer::new(CodecType::VP9, 98, 5);
    let packets = p.packetize(&[9, 9], 1).unwrap();
    assert_eq!(packets.len(), 1);
    assert_eq!(packets[0].payload.to_vec(), vec![0xC0, 9, 9]);
    assert!(packets[0].header.marker);
}

#[test]
fn vp9_empty_frame_makes_no_packet() {
    let mut p = RtpPacketizer::new(CodecType::VP9, 98, 5);
    let packets = p.packetize(&[], 1).unwrap();
    assert_eq!(packets.len(), 0);
    assert_eq!(p.next_sequence_number(), 0);
}

#[test]
fn vp9_limit_without_room_is_refused() {
    let mut p = RtpPacketizer::new(CodecType::VP9, 98, 5);
    p.set_max_payload_size(1);
    let r = p.packetize(&[1, 2, 3], 1);
    assert!(matches!(r, Err(SfuError::Media(MediaFault::InvalidPayloadSize))));
    assert_eq!(p.next_sequence_number(), 0);
}

#[test]
fn unsupported_codecs_are_refused() {
    let mut p = RtpPacketizer::new(CodecType::H264, 98, 5);
    assert!(matches!(
        p.packetize(&[1], 1),
        Err(SfuError::Media(MediaFault::UnsupportedCodec))
    ));
    let mut d = RtpDepacketizer::new(CodecType::AV1);
    assert!(matches!(
        d.process_packet(vp9_packet(0, true, vec![0xC0, 1])),
        Err(SfuError::Media(MediaFault::UnsupportedCodec))
    ));
}

#[test]
fn depacketizer_reorders_fragments_after_the_first() {
    let mut d = RtpDepacketizer::new(CodecType::VP9);
    assert_eq!(d.process_packet(vp9_packet(10, false, vec![0x80, 1])).unwrap(), None);
    assert_eq!(d.process_packet(vp9_packet(12, false, vec![0x00, 3])).unwrap(), None);
    assert_eq!(d.process_packet(vp9_packet(11, false, vec![0x00, 2])).unwrap(), None);
    assert_eq!(d.buffered(), 3);
    let out = d.process_packet(vp9_packet(13, true, vec![0x40, 4])).unwrap();
    assert_eq!(out, Some(vec![1, 2, 3, 4]));
}

#[test]
fn depacketizer_reorders_across_wraparound() {
    let mut d = RtpDepacketizer::new(CodecType::VP9);
    assert_eq!(d.process_packet(vp9_packet(65535, false, vec![0x80, 1])).unwrap(), None);
    assert_eq!(d.process_packet(vp9_packet(1, false, vec![0x00, 3])).unwrap(), None);
    assert_eq!(d.process_packet(vp9_packet(0, false, vec![0x00, 2])).unwrap(), None);
    let out = d.process_packet(vp9_packet(2, true, vec![0x40, 4])).unwrap();
    assert_eq!(out, Some(vec![1, 2, 3, 4]));
}

#[test]
fn depacketizer_discards_packets_out_of_range() {
    let mut d = RtpDepacketizer::new(CodecType::VP9);
    assert_eq!(d.process_packet(vp9_packet(100, false, vec![0x80, 1])).unwrap(), None);
    assert_eq!(d.process_packet(vp9_packet(99, true, vec![0x40, 9])).unwrap(), None);
    assert_eq!(d.buffered(), 1);
    let out = d.process_packet(vp9_packet(101, true, vec![0x40, 2])).unwrap();
    assert_eq!(out, Some(vec![1, 2]));
}

#[test]
fn start_of_frame_drops_a_partial_frame() {
    let mut d = RtpDepacketizer::new(CodecType::VP9);
    assert_eq!(d.process_packet(vp9_packet(1, false, vec![0x80, 1])).unwrap(), None);
    assert_eq!(d.process_packet(vp9_packet(2, false, vec![0x00, 2])).unwrap(), None);
    assert_eq!(d.process_packet(vp9_packet(3, false, vec![0x80, 7])).unwrap(), None);
    assert_eq!(d.buffered(), 1);
    let out = d.process_packet(vp9_packet(4, true, vec![0x40, 8])).unwrap();
    assert_eq!(out, Some(vec![7, 8]));
}

#[test]
fn marker_arriving_before_the_first_fragment_ends_the_frame_early() {
    let mut d = RtpDepacketizer::new(CodecType::VP9);
    assert_eq!(d.process_packet(vp9_packet(11, false, vec![0x00, 2])).unwrap(), None);
    let out = d.process_packet(vp9_packet(12, true, vec![0x40, 3])).unwrap();
    assert_eq!(out, Some(vec![2, 3]));
}

#[test]
fn fragments_between_first_and_last_may_arrive_in_any_order() {
    let frame: Vec<u8> = (0..20u8).collect();
    for order in [[0usize, 1, 2, 3, 4], [0, 3, 1, 2, 4], [0, 3, 2, 1, 4], [0, 2, 3, 1, 4]] {
        let mut p = RtpPacketizer::new(CodecType::VP9, 98, 5);
        p.set_max_payload_size(5);
        let mut packets: Vec<Option<RtpPacket>> =
            p.packetize(&frame, 1).unwrap().into_iter().map(Some).collect();
        assert_eq!(packets.len(), 5);
        let mut d = RtpDepacketizer::new(CodecType::VP9);
        let mut out = None;
        for (n, i) in order.iter().enumerate() {
            out = d.process_packet(packets[*i].take().unwrap()).unwrap();
            assert_eq!(out.is_some(), n == 4);
        }
        assert_eq!(out, Some(frame.clone()));
    }
}

#[test]
fn sequence_numbers_continue_from_frame_to_frame() {
    let mut p = RtpPacketizer::new(CodecType::VP9, 98, 5);
    p.set_max_payload_size(3);
    let mut expected = 0u16;
    for ts in 0..3u32 {
        for packet in p.packetize(&[1, 2, 3, 4, 5], ts).unwrap() {
            assert_eq!(packet.header.sequence_number, expected);
            assert_eq!(packet.header.timestamp, ts);
            expected = expected.wrapping_add(1);
        }
    }
    assert_eq!(expected, 9);
}
