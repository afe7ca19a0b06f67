use bytes::Bytes;
use rust_sfu_iroh::error::{MediaFault, SfuError};
use rust_sfu_iroh::media::rtp::{RtpExtension, RtpHeader, RtpPacket};

fn header(seq: u16) -> RtpHeader {
    RtpHeader {
        version: 2,
        padding: false,
        extension: false,
        csrc_count: 0,
        marker: true,
        payload_type: 111,
        sequence_number: seq,
        timestamp: 0x01020304,
        ssrc: 0xA0B0C0D0,
        csrc: Vec::new(),
        extension_data: None,
    }
}

#[test]
fn serialize_writes_the_fixed_header() {
    let p = RtpPacket::new(header(0x1234), Bytes::from(vec![9u8, 8, 7]));
    let out = p.serialize();
    assert_eq!(
        out.to_vec(),
        vec![0x80, 0xEF, 0x12, 0x34, 1, 2, 3, 4, 0xA0, 0xB0, 0xC0, 0xD0, 9, 8, 7]
    );
}

#[test]
fn parse_rejects_short_input() {
    let r = RtpPacket::parse(&[0x80, 0, 0, 0, 0, 0, 0, 0, 0, 0, 0]);
    assert!(matches!(r, Err(SfuError::Media(MediaFault::MalformedPacket))));
}

#[test]
fn parse_rejects_missing_csrc() {
    let mut d = vec![0x82u8, 0, 0, 1, 0, 0, 0, 0, 0, 0, 0, 1];
    d.extend_from_slice(&[0, 0, 0, 5]);
    let r = RtpPacket::parse(&d);
    assert!(matches!(r, Err(SfuError::Media(MediaFault::MalformedPacket))));
}

#[test]
fn parse_rejects_short_extension() {
    let mut d = vec![0x90u8, 0, 0, 1, 0, 0, 0, 0, 0, 0, 0, 1];
    d.extend_from_slice(&[0xBE, 0xDE, 0, 2, 1, 2, 3, 4]);
    let r = RtpPacket::parse(&d);
    assert!(matches!(r, Err(SfuError::Media(MediaFault::MalformedPacket))));
}

#[test]
fn parse_serialize_round_trip_with_csrc_and_extension() {
    let mut h = header(65535);
    h.padding = true;
    h.marker = false;
    h.csrc_count = 2;
    h.csrc = vec![0xDEADBEEF, 7];
    h.extension = true;
    h.extension_data = Some(RtpExtension {
        profile: 0xBEDE,
        data: Bytes::from(vec![1u8, 2, 3, 4, 5, 6, 7, 8]),
    });
    let p = RtpPacket::new(h, Bytes::from(vec![42u8; 10]));
    let wire = p.serialize();
    assert_eq!(wire.len(), 12 + 8 + 4 + 8 + 10);
    let q = RtpPacket::parse(&wire).unwrap();
    assert_eq!(q.header.version, 2);
    assert!(q.header.padding);
    assert!(q.header.extension);
    assert_eq!(q.header.csrc_count, 2);
    assert!(!q.header.marker);
    assert_eq!(q.header.payload_type, 111);
    assert_eq!(q.header.sequence_number, 65535);
    assert_eq!(q.header.timestamp, 0x01020304);
    assert_eq!(q.header.ssrc, 0xA0B0C0D0);
    assert_eq!(q.header.csrc, vec![0xDEADBEEF, 7]);
    let ext = q.header.extension_data.unwrap();
    assert_eq!(ext.profile, 0xBEDE);
    assert_eq!(ext.data.to_vec(), vec![1u8, 2, 3, 4, 5, 6, 7, 8]);
    assert_eq!(q.payload.to_vec(), vec![42u8; 10]);
}

#[test]
fn wire_size_counts_every_part() {
    let mut h = header(1);
    h.csrc_count = 1;
    h.csrc = vec![5];
    h.extension = true;
    h.extension_data = Some(RtpExtension { profile: 1, data: Bytes::from(vec![0u8; 4]) });
    let p = RtpPacket::new(h, Bytes::from(vec![0u8; 3]));
    assert_eq!(p.wire_size(), Some(12 + 4 + 4 + 4 + 3));
    let out = p.try_serialize().unwrap();
    assert_eq!(out.len(), 27);
    assert_eq!(out.to_vec(), p.serialize().to_vec());
    let plain = RtpPacket::new(header(1), Bytes::new());
    assert_eq!(plain.wire_size(), Some(12));
}

#[test]
fn parse_reads_all_header_bits() {
    let d = [0xFFu8, 0xFF, 0, 0, 0, 0, 0, 0, 0, 0, 0, 0];
    assert!(matches!(
        RtpPacket::parse(&d),
        Err(SfuError::Media(MediaFault::MalformedPacket))
    ));
    let d = [0x60u8, 0x80, 0xAB, 0xCD, 0, 0, 0, 1, 0, 0, 0, 2, 7];
    let p = RtpPacket::parse(&d).unwrap();
    assert_eq!(p.header.version, 1);
    assert!(p.header.padding);
    assert!(!p.header.extension);
    assert_eq!(p.header.csrc_count, 0);
    assert!(p.header.marker);
    assert_eq!(p.header.payload_type, 0);
    assert_eq!(p.header.sequence_number, 0xABCD);
    assert_eq!(p.header.timestamp, 1);
    assert_eq!(p.header.ssrc, 2);
    assert_eq!(p.payload.to_vec(), vec![7]);
}
