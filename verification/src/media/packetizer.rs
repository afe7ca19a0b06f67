//! Turning encoded frames into RTP packets, codec by codec.
use vstd::prelude::*;
use vstd::arithmetic::div_mod::lemma_fundamental_div_mod;
use vstd::arithmetic::mul::lemma_mul_inequality;
use crate::buffer::{buf_freeze, buf_put_slice, buf_put_u8, buf_with_capacity, bytes_from_slice};
use crate::error::{MediaFault, SfuError};
use crate::media::codec::CodecType;
use crate::media::rtp::{bit, RtpHeader, RtpPacket, RtpPacketView};

verus! {

/// Packet size limit that a new packetizer starts with.
pub const DEFAULT_MAX_PAYLOAD_SIZE: usize = 1200;

/// The sequence number `steps` after `start`, wrapping at 2^16.
pub open spec fn seq_after(start: u16, steps: int) -> u16 {
    ((start + steps) % 0x1_0000) as u16
}

/// The views of a run of packets.
pub open spec fn packet_views(v: Seq<RtpPacket>) -> Seq<RtpPacketView> {
    Seq::new(v.len(), |i: int| v[i]@)
}

/// The header fields every packet of a packetizer shares.
pub open spec fn plain_packet(
    payload_type: u8,
    ssrc: u32,
    sequence_number: u16,
    timestamp: u32,
    marker: bool,
    payload: Seq<u8>,
) -> RtpPacketView {
    RtpPacketView {
        version: 2,
        padding: false,
        extension: false,
        csrc_count: 0,
        marker,
        payload_type,
        sequence_number,
        timestamp,
        ssrc,
        csrc: Seq::<u32>::empty(),
        extension_data: None,
        payload,
    }
}

/// The one-octet VP9 descriptor: high bit on the first fragment of a frame,
/// next bit on the last.
pub open spec fn vp9_descriptor(first: bool, last: bool) -> u8 {
    (bit(first) << 7) | (bit(last) << 6)
}

/// How many fragments a frame of `len` octets takes at `chunk` octets each.
pub open spec fn fragment_count(len: int, chunk: int) -> int {
    (len + chunk - 1) / chunk
}

/// Payload of fragment `i`: the descriptor, then the frame's octets from
/// `i * chunk` up to the next fragment or the frame's end.
pub open spec fn vp9_payload(frame: Seq<u8>, chunk: int, i: int) -> Seq<u8> {
    let from = i * chunk;
    let to = if from + chunk < frame.len() { from + chunk } else { frame.len() as int };
    seq![vp9_descriptor(i == 0, to == frame.len())] + frame.subrange(from, to)
}

/// The packets of one VP9 frame: consecutive sequence numbers, one
/// timestamp, the marker on the last fragment only.
pub open spec fn vp9_packets(
    frame: Seq<u8>,
    chunk: int,
    payload_type: u8,
    ssrc: u32,
    first_seq: u16,
    timestamp: u32,
) -> Seq<RtpPacketView> {
    let count = fragment_count(frame.len() as int, chunk);
    Seq::new(
        count as nat,
        |i: int|
            plain_packet(
                payload_type,
                ssrc,
                seq_after(first_seq, i),
                timestamp,
                i == count - 1,
                vp9_payload(frame, chunk, i),
            ),
    )
}

/// The single packet of one Opus frame: the payload is the frame, the marker
/// is set.
pub open spec fn opus_packet(
    frame: Seq<u8>,
    payload_type: u8,
    ssrc: u32,
    sequence_number: u16,
    timestamp: u32,
) -> RtpPacketView {
    plain_packet(payload_type, ssrc, sequence_number, timestamp, true, frame)
}

/// Fragment `i` starts inside the frame exactly when `i` is below the count.
pub proof fn lemma_fragment_count(len: int, chunk: int, i: int)
    requires
        0 <= len,
        0 < chunk,
        0 <= i,
    ensures
        (i * chunk < len) <==> (i < fragment_count(len, chunk)),
        (i * chunk + chunk >= len && i * chunk < len) <==> (i == fragment_count(len, chunk) - 1),
{
    let k = fragment_count(len, chunk);
    lemma_fundamental_div_mod(len + chunk - 1, chunk);
    assert(chunk * k == k * chunk) by (nonlinear_arith);
    assert(0 <= (len + chunk - 1) % chunk < chunk);
    if i < k {
        lemma_mul_inequality(i + 1, k, chunk);
        assert((i + 1) * chunk == i * chunk + chunk) by (nonlinear_arith);
    } else {
        lemma_mul_inequality(k, i, chunk);
    }
    if i < k - 1 {
        lemma_mul_inequality(i + 2, k, chunk);
        assert((i + 2) * chunk == i * chunk + chunk + chunk) by (nonlinear_arith);
    }
}

/// Packetizer of one outbound track: it owns the track's sequence counter.
pub struct RtpPacketizer {
    codec_type: CodecType,
    payload_type: u8,
    ssrc: u32,
    sequence_number: u16,
    timestamp: u32,
    max_payload_size: usize,
}

fn next_seq(s: u16) -> (r: u16)
    ensures
        r == seq_after(s, 1),
{
    if s == u16::MAX {
        0
    } else {
        s + 1
    }
}

impl RtpPacketizer {
    /// The codec whose frames are packetized.
    pub closed spec fn codec_type(&self) -> CodecType {
        self.codec_type
    }

    /// The payload type written into every packet.
    pub closed spec fn payload_type(&self) -> u8 {
        self.payload_type
    }

    /// The synchronisation source written into every packet.
    pub closed spec fn ssrc(&self) -> u32 {
        self.ssrc
    }

    /// The sequence number that the next packet will carry.
    pub closed spec fn sequence_number(&self) -> u16 {
        self.sequence_number
    }

    /// The timestamp of the last frame packetized.
    pub closed spec fn timestamp(&self) -> u32 {
        self.timestamp
    }

    /// The largest payload, descriptor included, that a packet may carry.
    pub closed spec fn max_payload_size(&self) -> usize {
        self.max_payload_size
    }

    /// A packetizer that starts at sequence number 0 with the default
    /// packet size limit.
    pub fn new(codec_type: CodecType, payload_type: u8, ssrc: u32) -> (p: RtpPacketizer)
        ensures
            p.codec_type() == codec_type,
            p.payload_type() == payload_type,
            p.ssrc() == ssrc,
            p.sequence_number() == 0,
            p.timestamp() == 0,
            p.max_payload_size() == DEFAULT_MAX_PAYLOAD_SIZE,
    {
        RtpPacketizer {
            codec_type,
            payload_type,
            ssrc,
            sequence_number: 0,
            timestamp: 0,
            max_payload_size: DEFAULT_MAX_PAYLOAD_SIZE,
        }
    }

    /// Sets the packet size limit; nothing else changes.
    pub fn set_max_payload_size(&mut self, size: usize)
        ensures
            final(self).max_payload_size() == size,
            final(self).codec_type() == old(self).codec_type(),
            final(self).payload_type() == old(self).payload_type(),
            final(self).ssrc() == old(self).ssrc(),
            final(self).sequence_number() == old(self).sequence_number(),
            final(self).timestamp() == old(self).timestamp(),
    {
        self.max_payload_size = size;
    }

    /// The sequence number that the next packet will carry.
    pub fn next_sequence_number(&self) -> (s: u16)
        ensures
            s == self.sequence_number(),
    {
        self.sequence_number
    }

    fn header(&self, marker: bool) -> (h: RtpHeader)
        ensures
            h.version == 2,
            !h.padding,
            !h.extension,
            h.csrc_count == 0,
            h.marker == marker,
            h.payload_type == self.payload_type,
            h.sequence_number == self.sequence_number,
            h.timestamp == self.timestamp,
            h.ssrc == self.ssrc,
            h.csrc@ == Seq::<u32>::empty(),
            h.extension_data.is_none(),
    {
        RtpHeader {
            version: 2,
            padding: false,
            extension: false,
            csrc_count: 0,
            marker,
            payload_type: self.payload_type,
            sequence_number: self.sequence_number,
            timestamp: self.timestamp,
            ssrc: self.ssrc,
            csrc: Vec::new(),
            extension_data: None,
        }
    }

    /// Packetizes one frame. Opus: one packet that carries the frame, marker
    /// set. VP9: fragments of at most the packet size limit, descriptor
    /// included, with consecutive sequence numbers; a limit below two octets
    /// leaves no room for frame bytes and is refused. Other codecs are
    /// refused. The sequence counter advances by the number of packets made.
    pub fn packetize(&mut self, frame: &[u8], timestamp: u32) -> (r: Result<
        Vec<RtpPacket>,
        SfuError,
    >)
        requires
            frame@.len() < isize::MAX,
        ensures
            final(self).codec_type() == old(self).codec_type(),
            final(self).payload_type() == old(self).payload_type(),
            final(self).ssrc() == old(self).ssrc(),
            final(self).max_payload_size() == old(self).max_payload_size(),
            final(self).timestamp() == timestamp,
            match old(self).codec_type() {
                CodecType::Opus => r.is_ok() && packet_views(r.unwrap()@) == seq![
                    opus_packet(
                        frame@,
                        old(self).payload_type(),
                        old(self).ssrc(),
                        old(self).sequence_number(),
                        timestamp,
                    ),
                ] && final(self).sequence_number() == seq_after(old(self).sequence_number(), 1),
                CodecType::VP9 => if old(self).max_payload_size() < 2 {
                    r == Err::<Vec<RtpPacket>, SfuError>(
                        SfuError::Media(MediaFault::InvalidPayloadSize),
                    ) && final(self).sequence_number() == old(self).sequence_number()
                } else {
                    r.is_ok() && packet_views(r.unwrap()@) == vp9_packets(
                        frame@,
                        old(self).max_payload_size() - 1,
                        old(self).payload_type(),
                        old(self).ssrc(),
                        old(self).sequence_number(),
                        timestamp,
                    ) && final(self).sequence_number() == seq_after(
                        old(self).sequence_number(),
                        fragment_count(frame@.len() as int, old(self).max_payload_size() - 1),
                    )
                },
                _ => r == Err::<Vec<RtpPacket>, SfuError>(
                    SfuError::Media(MediaFault::UnsupportedCodec),
                ) && final(self).sequence_number() == old(self).sequence_number(),
            },
    {
        self.timestamp = timestamp;
        let mut packets: Vec<RtpPacket> = Vec::new();
        match self.codec_type {
            CodecType::Opus => {
                let header = self.header(true);
                let packet = RtpPacket::new(header, bytes_from_slice(frame));
                packets.push(packet);
                self.sequence_number = next_seq(self.sequence_number);
                assert(packet_views(packets@) =~= seq![
                    opus_packet(
                        frame@,
                        old(self).payload_type(),
                        old(self).ssrc(),
                        old(self).sequence_number(),
                        timestamp,
                    ),
                ]);
                Ok(packets)
            },
            CodecType::VP9 => {
                if self.max_payload_size < 2 {
                    return Err(SfuError::Media(MediaFault::InvalidPayloadSize));
                }
                let chunk: usize = self.max_payload_size - 1;
                let ghost count = fragment_count(frame@.len() as int, chunk as int);
                let ghost first_seq = self.sequence_number;
                let ghost want = vp9_packets(
                    frame@,
                    chunk as int,
                    self.payload_type,
                    self.ssrc,
                    first_seq,
                    timestamp,
                );
                let mut offset: usize = 0;
                let mut is_first = true;
                let ghost mut i: int = 0;
                proof {
                    lemma_fragment_count(frame@.len() as int, chunk as int, 0);
                    assert(0 * (chunk as int) == 0) by (nonlinear_arith);
                }
                while offset < frame.len()
                    invariant
                        0 < chunk,
                        frame@.len() < isize::MAX,
                        count == fragment_count(frame@.len() as int, chunk as int),
                        0 <= i <= count,
                        offset == i * chunk || (i == count && offset == frame@.len()),
                        i < count <==> offset < frame@.len(),
                        is_first == (i == 0),
                        self.codec_type == old(self).codec_type,
                        self.payload_type == old(self).payload_type,
                        self.ssrc == old(self).ssrc,
                        self.max_payload_size == old(self).max_payload_size,
                        self.timestamp == timestamp,
                        self.sequence_number == seq_after(first_seq, i),
                        want == vp9_packets(
                            frame@,
                            chunk as int,
                            self.payload_type,
                            self.ssrc,
                            first_seq,
                            timestamp,
                        ),
                        packets@.len() == i,
                        forall|k: int| 0 <= k < i ==> (#[trigger] packets@[k])@ == want[k],
                    decreases frame@.len() - offset,
                {
                    let remaining = frame.len() - offset;
                    let payload_size = if remaining < chunk { remaining } else { chunk };
                    let is_last = offset + payload_size >= frame.len();
                    proof {
                        lemma_fragment_count(frame@.len() as int, chunk as int, i);
                        lemma_fragment_count(frame@.len() as int, chunk as int, i + 1);
                        assert((i + 1) * chunk == i * chunk + chunk) by (nonlinear_arith);
                    }
                    let first: u8 = if is_first { 1 } else { 0 };
                    let last: u8 = if is_last { 1 } else { 0 };
                    let descriptor = (first << 7) | (last << 6);
                    let mut payload = buf_with_capacity(1 + payload_size);
                    buf_put_u8(&mut payload, descriptor);
                    buf_put_slice(
                        &mut payload,
                        vstd::slice::slice_subrange(frame, offset, offset + payload_size),
                    );
                    let header = self.header(is_last);
                    let packet = RtpPacket::new(header, buf_freeze(payload));
                    assert(packet@.payload =~= vp9_payload(frame@, chunk as int, i));
                    assert(packet@ == want[i]);
                    packets.push(packet);
                    offset = offset + payload_size;
                    is_first = false;
                    self.sequence_number = next_seq(self.sequence_number);
                    proof {
                        i = i + 1;
                    }
                }
                assert(packet_views(packets@) =~= want);
                Ok(packets)
            },
            _ => Err(SfuError::Media(MediaFault::UnsupportedCodec)),
        }
    }
}

} // verus!
