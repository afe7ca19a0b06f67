//! Reassembling encoded frames from RTP packets, codec by codec.
use vstd::prelude::*;
use crate::buffer::bytes_as_slice;
use crate::error::{MediaFault, SfuError};
use crate::media::codec::CodecType;
use crate::media::packetizer::{
    fragment_count, lemma_fragment_count, opus_packet, seq_after, vp9_packets, vp9_payload,
};
use crate::media::rtp::{RtpPacket, RtpPacketView};

verus! {

/// How far sequence number `s` lies after `reference`, modulo 2^16.
pub open spec fn seq_distance(reference: u16, s: u16) -> int {
    if s >= reference {
        s - reference
    } else {
        s + 0x1_0000 - reference
    }
}

/// Packet `b` follows packet `a` when its distance after `a` is at least 1
/// and below 2^15.
pub open spec fn seq_follows(a: u16, b: u16) -> bool {
    1 <= seq_distance(a, b) < 0x8000
}

/// Whether a VP9 payload opens a frame: the descriptor's high bit.
pub open spec fn starts_frame(payload: Seq<u8>) -> bool {
    payload.len() > 0 && payload[0] & 0x80 != 0
}

/// A VP9 payload without its descriptor octet.
pub open spec fn strip_descriptor(payload: Seq<u8>) -> Seq<u8> {
    if payload.len() > 1 {
        payload.subrange(1, payload.len() as int)
    } else {
        Seq::<u8>::empty()
    }
}

/// The frame that a buffer of fragments holds: the stripped payloads in
/// buffer order.
pub open spec fn reassemble(buf: Seq<RtpPacketView>) -> Seq<u8>
    decreases buf.len(),
{
    if buf.len() == 0 {
        Seq::<u8>::empty()
    } else {
        reassemble(buf.drop_last()) + strip_descriptor(buf.last().payload)
    }
}

/// Where a packet at `distance` from the buffer's first packet goes: behind
/// the last buffered packet that is no further from the first.
pub open spec fn insert_index(buf: Seq<RtpPacketView>, reference: u16, distance: int) -> int
    decreases buf.len(),
{
    if buf.len() == 0 {
        0
    } else if seq_distance(reference, buf.last().sequence_number) <= distance {
        buf.len() as int
    } else {
        insert_index(buf.drop_last(), reference, distance)
    }
}

/// Whether an arriving VP9 packet is dropped: it opens no frame, and it lies
/// 2^15 or more from the first buffered packet.
pub open spec fn vp9_discards(buf: Seq<RtpPacketView>, p: RtpPacketView) -> bool {
    !starts_frame(p.payload) && buf.len() > 0 && seq_distance(
        buf[0].sequence_number,
        p.sequence_number,
    ) >= 0x8000
}

/// The buffer after a VP9 packet arrived. A packet that opens a frame
/// replaces whatever was buffered; any other is placed by its sequence
/// number, or dropped.
pub open spec fn vp9_arrival(buf: Seq<RtpPacketView>, p: RtpPacketView) -> Seq<RtpPacketView> {
    if starts_frame(p.payload) || buf.len() == 0 {
        seq![p]
    } else if vp9_discards(buf, p) {
        buf
    } else {
        let d = seq_distance(buf[0].sequence_number, p.sequence_number);
        buf.insert(insert_index(buf, buf[0].sequence_number, d), p)
    }
}

/// Whether the arrival of a VP9 packet completes a frame: the packet was
/// kept and carries the marker.
pub open spec fn vp9_emits(buf: Seq<RtpPacketView>, p: RtpPacketView) -> bool {
    p.marker && !vp9_discards(buf, p)
}

/// Whether a reconstructed VP9 frame is a key frame: it is not empty and
/// the low bit of its first octet is clear.
pub open spec fn vp9_is_key(frame: Seq<u8>) -> bool {
    frame.len() > 0 && frame[0] & 0x01 == 0
}

/// Depacketizer of one inbound track.
pub struct RtpDepacketizer {
    codec_type: CodecType,
    packet_buffer: Vec<RtpPacket>,
}

fn distance(reference: u16, s: u16) -> (d: u16)
    ensures
        d == seq_distance(reference, s),
{
    if s >= reference {
        s - reference
    } else {
        (0xFFFF - reference) + s + 1
    }
}

impl RtpDepacketizer {
    /// The codec whose packets are taken.
    pub closed spec fn codec_type(&self) -> CodecType {
        self.codec_type
    }

    /// The fragments waiting for the rest of their frame.
    pub closed spec fn buffer(&self) -> Seq<RtpPacketView> {
        Seq::new(self.packet_buffer@.len(), |i: int| self.packet_buffer@[i]@)
    }

    /// A depacketizer with nothing buffered.
    pub fn new(codec_type: CodecType) -> (d: RtpDepacketizer)
        ensures
            d.codec_type() == codec_type,
            d.buffer() == Seq::<RtpPacketView>::empty(),
    {
        let d = RtpDepacketizer { codec_type, packet_buffer: Vec::new() };
        assert(d.buffer() =~= Seq::<RtpPacketView>::empty());
        d
    }

    /// The codec whose packets are taken.
    pub fn codec(&self) -> (c: CodecType)
        ensures
            c == self.codec_type(),
    {
        self.codec_type
    }

    /// How many fragments are waiting.
    pub fn buffered(&self) -> (n: usize)
        ensures
            n == self.buffer().len(),
    {
        self.packet_buffer.len()
    }

    fn place(&self, d: u16) -> (j: usize)
        requires
            self.packet_buffer@.len() > 0,
        ensures
            j == insert_index(self.buffer(), self.buffer()[0].sequence_number, d as int),
            j <= self.packet_buffer@.len(),
    {
        let reference = self.packet_buffer[0].header.sequence_number;
        let mut j = self.packet_buffer.len();
        assert(self.buffer().take(j as int) =~= self.buffer());
        while j > 0 && distance(reference, self.packet_buffer[j - 1].header.sequence_number) > d
            invariant
                j <= self.packet_buffer@.len(),
                reference == self.buffer()[0].sequence_number,
                insert_index(self.buffer(), reference, d as int) == insert_index(
                    self.buffer().take(j as int),
                    reference,
                    d as int,
                ),
            decreases j,
        {
            assert(self.buffer().take(j as int).drop_last() =~= self.buffer().take(j - 1));
            j = j - 1;
        }
        j
    }

    fn assemble(&self) -> (frame: Vec<u8>)
        ensures
            frame@ == reassemble(self.buffer()),
    {
        let mut frame: Vec<u8> = Vec::new();
        let mut i: usize = 0;
        assert(self.buffer().take(0) =~= Seq::<RtpPacketView>::empty());
        while i < self.packet_buffer.len()
            invariant
                i <= self.packet_buffer@.len(),
                frame@ == reassemble(self.buffer().take(i as int)),
            decreases self.packet_buffer@.len() - i,
        {
            let payload = bytes_as_slice(&self.packet_buffer[i].payload);
            assert(self.buffer().take(i + 1).drop_last() =~= self.buffer().take(i as int));
            if payload.len() > 1 {
                frame.extend_from_slice(vstd::slice::slice_subrange(payload, 1, payload.len()));
            }
            i = i + 1;
            assert(frame@ =~= reassemble(self.buffer().take(i as int)));
        }
        assert(self.buffer().take(i as int) =~= self.buffer());
        frame
    }

    /// Takes one packet. Opus: the payload is the frame. VP9: the packet is
    /// buffered by sequence number, after clearing the buffer if it opens a
    /// frame, or dropped if it lies out of range; a kept packet with the
    /// marker completes the frame, which is handed out and the buffer
    /// emptied. Other codecs are refused.
    pub fn process_packet(&mut self, packet: RtpPacket) -> (r: Result<Option<Vec<u8>>, SfuError>)
        ensures
            final(self).codec_type() == old(self).codec_type(),
            match old(self).codec_type() {
                CodecType::Opus => {
                    &&& r.is_ok() && r.unwrap().is_some()
                    &&& r.unwrap().unwrap()@ == packet@.payload
                    &&& final(self).buffer() == old(self).buffer()
                },
                CodecType::VP9 => if vp9_emits(old(self).buffer(), packet@) {
                    &&& r.is_ok() && r.unwrap().is_some()
                    &&& r.unwrap().unwrap()@ == reassemble(
                        vp9_arrival(old(self).buffer(), packet@),
                    )
                    &&& final(self).buffer() == Seq::<RtpPacketView>::empty()
                } else {
                    &&& r.is_ok() && r.unwrap().is_none()
                    &&& final(self).buffer() == vp9_arrival(old(self).buffer(), packet@)
                },
                _ => {
                    &&& r == Err::<Option<Vec<u8>>, SfuError>(
                        SfuError::Media(MediaFault::UnsupportedCodec),
                    )
                    &&& final(self).buffer() == old(self).buffer()
                },
            },
    {
        match self.codec_type {
            CodecType::Opus => {
                let payload = bytes_as_slice(&packet.payload);
                Ok(Some(vstd::slice::slice_to_vec(payload)))
            },
            CodecType::VP9 => {
                let payload = bytes_as_slice(&packet.payload);
                let starts = payload.len() > 0 && (payload[0] & 0x80) != 0;
                let marker = packet.header.marker;
                let ghost before = self.buffer();
                let ghost arriving = packet@;
                if starts || self.packet_buffer.len() == 0 {
                    self.packet_buffer.clear();
                    self.packet_buffer.push(packet);
                    assert(self.buffer() =~= seq![arriving]);
                } else {
                    let d = distance(
                        self.packet_buffer[0].header.sequence_number,
                        packet.header.sequence_number,
                    );
                    if d >= 0x8000 {
                        return Ok(None);
                    }
                    let j = self.place(d);
                    self.packet_buffer.insert(j, packet);
                    assert(self.buffer() =~= before.insert(j as int, arriving));
                }
                if marker {
                    let frame = self.assemble();
                    self.packet_buffer.clear();
                    assert(self.buffer() =~= Seq::<RtpPacketView>::empty());
                    Ok(Some(frame))
                } else {
                    Ok(None)
                }
            },
            _ => Err(SfuError::Media(MediaFault::UnsupportedCodec)),
        }
    }
}

/// The views of the packets of a stream of Opus frames, each frame given
/// with its timestamp.
pub open spec fn opus_stream(
    frames: Seq<(Seq<u8>, u32)>,
    payload_type: u8,
    ssrc: u32,
    first_seq: u16,
) -> Seq<RtpPacketView> {
    Seq::new(
        frames.len(),
        |i: int| opus_packet(frames[i].0, payload_type, ssrc, seq_after(first_seq, i), frames[i].1),
    )
}

/// The sequence number `steps` after `start` lies `steps` after it.
pub proof fn lemma_seq_distance_after(start: u16, steps: int)
    requires
        0 <= steps < 0x1_0000,
    ensures
        seq_distance(start, seq_after(start, steps)) == steps,
{
}

/// An Opus stream keeps order, payload and timestamp: the packet of frame
/// `i` carries that frame and its timestamp, and each packet follows the one
/// before it in sequence order.
pub proof fn lemma_opus_round_trip(
    frames: Seq<(Seq<u8>, u32)>,
    payload_type: u8,
    ssrc: u32,
    first_seq: u16,
)
    ensures
        ({
            let stream = opus_stream(frames, payload_type, ssrc, first_seq);
            &&& stream.len() == frames.len()
            &&& forall|i: int|
                0 <= i < frames.len() ==> (#[trigger] stream[i]).payload == frames[i].0
                    && stream[i].timestamp == frames[i].1
            &&& forall|i: int|
                0 <= i < frames.len() - 1 ==> seq_follows(
                    (#[trigger] stream[i]).sequence_number,
                    stream[i + 1].sequence_number,
                )
        }),
{
    let stream = opus_stream(frames, payload_type, ssrc, first_seq);
    assert forall|i: int| 0 <= i < frames.len() - 1 implies seq_follows(
        (#[trigger] stream[i]).sequence_number,
        stream[i + 1].sequence_number,
    ) by {
        let a = seq_after(first_seq, i);
        let b = seq_after(first_seq, i + 1);
        assert(b == seq_after(a, 1)) by {
            lemma_seq_after_step(first_seq, i);
        }
        lemma_seq_distance_after(a, 1);
    }
}

pub(crate) proof fn lemma_seq_after_step(start: u16, steps: int)
    requires
        0 <= steps,
    ensures
        seq_after(start, steps + 1) == seq_after(seq_after(start, steps), 1),
{
    let m = 0x1_0000int;
    let x = start + steps;
    vstd::arithmetic::div_mod::lemma_fundamental_div_mod(x, m);
    vstd::arithmetic::div_mod::lemma_fundamental_div_mod(x + 1, m);
    vstd::arithmetic::div_mod::lemma_add_mod_noop(x, 1, m);
    vstd::arithmetic::div_mod::lemma_small_mod(1, 0x1_0000);
}

/// The buffer of a VP9 depacketizer after the first `n` packets of `ps`
/// arrived, starting from `buf`.
pub open spec fn buffer_after(buf: Seq<RtpPacketView>, ps: Seq<RtpPacketView>, n: int) -> Seq<
    RtpPacketView,
>
    decreases n,
{
    if n <= 0 {
        buf
    } else {
        let before = buffer_after(buf, ps, n - 1);
        if vp9_emits(before, ps[n - 1]) {
            Seq::<RtpPacketView>::empty()
        } else {
            vp9_arrival(before, ps[n - 1])
        }
    }
}

/// What a VP9 depacketizer hands out when packet `n` of `ps` arrives, after
/// the packets before it.
pub open spec fn output_at(buf: Seq<RtpPacketView>, ps: Seq<RtpPacketView>, n: int) -> Option<
    Seq<u8>,
> {
    let before = buffer_after(buf, ps, n);
    if vp9_emits(before, ps[n]) {
        Some(reassemble(vp9_arrival(before, ps[n])))
    } else {
        None
    }
}

pub(crate) proof fn lemma_descriptor_bits(first: bool, last: bool)
    ensures
        (crate::media::packetizer::vp9_descriptor(first, last) & 0x80 != 0) == first,
{
    let f = crate::media::rtp::bit(first);
    let l = crate::media::rtp::bit(last);
    assert((((f << 7) | (l << 6)) & 0x80 != 0) == (f == 1)) by (bit_vector)
        requires
            f <= 1,
            l <= 1,
    ;
}

pub(crate) proof fn lemma_reassemble_prefix(
    frame: Seq<u8>,
    chunk: int,
    payload_type: u8,
    ssrc: u32,
    first_seq: u16,
    timestamp: u32,
    n: int,
)
    requires
        0 < chunk,
        0 <= n <= fragment_count(frame.len() as int, chunk),
    ensures
        ({
            let ps = vp9_packets(frame, chunk, payload_type, ssrc, first_seq, timestamp);
            let upto = if n * chunk < frame.len() { n * chunk } else { frame.len() as int };
            reassemble(ps.take(n)) == frame.subrange(0, upto)
        }),
    decreases n,
{
    let ps = vp9_packets(frame, chunk, payload_type, ssrc, first_seq, timestamp);
    let len = frame.len() as int;
    if n == 0 {
        assert(0 * chunk == 0) by (nonlinear_arith);
        assert(reassemble(ps.take(0)) =~= frame.subrange(0, 0));
    } else {
        lemma_reassemble_prefix(frame, chunk, payload_type, ssrc, first_seq, timestamp, n - 1);
        lemma_fragment_count(len, chunk, n - 1);
        assert(n * chunk == (n - 1) * chunk + chunk) by (nonlinear_arith);
        assert(0 <= (n - 1) * chunk) by (nonlinear_arith)
            requires
                0 < chunk,
                1 <= n,
        ;
        assert(ps.take(n).drop_last() =~= ps.take(n - 1));
        assert(ps.take(n).last() == ps[n - 1]);
        let from = (n - 1) * chunk;
        let to = if from + chunk < len { from + chunk } else { len };
        assert(ps[n - 1].payload == vp9_payload(frame, chunk, n - 1));
        assert(strip_descriptor(ps[n - 1].payload) =~= frame.subrange(from, to));
        assert(frame.subrange(0, from) + frame.subrange(from, to) =~= frame.subrange(0, to));
    }
}

/// A VP9 frame that was packetized comes out of the depacketizer unchanged
/// when its packets arrive in order: nothing is handed out before the last
/// packet, the last packet hands out the frame, and the frame is classified
/// as before. The frame is not empty and takes at most 2^15 fragments, so
/// that no fragment lies out of range of the first.
pub proof fn lemma_vp9_round_trip(
    buf: Seq<RtpPacketView>,
    frame: Seq<u8>,
    chunk: int,
    payload_type: u8,
    ssrc: u32,
    first_seq: u16,
    timestamp: u32,
)
    requires
        0 < chunk,
        0 < frame.len(),
        fragment_count(frame.len() as int, chunk) <= 0x8000,
    ensures
        ({
            let ps = vp9_packets(frame, chunk, payload_type, ssrc, first_seq, timestamp);
            &&& ps.len() == fragment_count(frame.len() as int, chunk)
            &&& ps.len() >= 1
            &&& forall|n: int| 0 <= n < ps.len() - 1 ==> #[trigger] output_at(buf, ps, n).is_none()
            &&& output_at(buf, ps, ps.len() - 1) == Some(frame)
            &&& vp9_is_key(output_at(buf, ps, ps.len() - 1).unwrap()) == vp9_is_key(frame)
        }),
{
    let ps = vp9_packets(frame, chunk, payload_type, ssrc, first_seq, timestamp);
    let count = fragment_count(frame.len() as int, chunk);
    lemma_fragment_count(frame.len() as int, chunk, 0);
    assert(0 * chunk == 0) by (nonlinear_arith);
    assert(count >= 1);
    assert forall|n: int| 0 <= n < count implies #[trigger] buffer_after(buf, ps, n + 1) == (if n
        == count - 1 {
        Seq::<RtpPacketView>::empty()
    } else {
        ps.take(n + 1)
    }) && output_at(buf, ps, n) == (if n == count - 1 {
        Some(reassemble(ps))
    } else {
        None::<Seq<u8>>
    }) by {
        lemma_feed_in_order(buf, frame, chunk, payload_type, ssrc, first_seq, timestamp, n);
    }
    lemma_reassemble_prefix(frame, chunk, payload_type, ssrc, first_seq, timestamp, count);
    lemma_fragment_count(frame.len() as int, chunk, count);
    assert(ps.take(count) =~= ps);
    assert(frame.subrange(0, frame.len() as int) =~= frame);
    assert forall|n: int| 0 <= n < ps.len() - 1 implies #[trigger] output_at(
        buf,
        ps,
        n,
    ).is_none() by {
        assert(buffer_after(buf, ps, n + 1) == ps.take(n + 1));
    }
    assert(buffer_after(buf, ps, count - 1 + 1) == Seq::<RtpPacketView>::empty());
}

proof fn lemma_feed_in_order(
    buf: Seq<RtpPacketView>,
    frame: Seq<u8>,
    chunk: int,
    payload_type: u8,
    ssrc: u32,
    first_seq: u16,
    timestamp: u32,
    n: int,
)
    requires
        0 < chunk,
        0 < frame.len(),
        fragment_count(frame.len() as int, chunk) <= 0x8000,
        0 <= n < fragment_count(frame.len() as int, chunk),
    ensures
        ({
            let ps = vp9_packets(frame, chunk, payload_type, ssrc, first_seq, timestamp);
            let count = fragment_count(frame.len() as int, chunk);
            &&& buffer_after(buf, ps, n + 1) == (if n == count - 1 {
                Seq::<RtpPacketView>::empty()
            } else {
                ps.take(n + 1)
            })
            &&& output_at(buf, ps, n) == (if n == count - 1 {
                Some(reassemble(ps))
            } else {
                None::<Seq<u8>>
            })
        }),
    decreases n,
{
    let ps = vp9_packets(frame, chunk, payload_type, ssrc, first_seq, timestamp);
    let count = fragment_count(frame.len() as int, chunk);
    let p = ps[n];
    let len = frame.len() as int;
    let from = n * chunk;
    let to = if from + chunk < len { from + chunk } else { len };
    lemma_descriptor_bits(n == 0, to == len);
    assert(p.payload == vp9_payload(frame, chunk, n));
    assert(p.payload[0] == crate::media::packetizer::vp9_descriptor(n == 0, to == len));
    assert(starts_frame(p.payload) == (n == 0));
    assert(p.marker == (n == count - 1));
    if n == 0 {
        let before = buffer_after(buf, ps, 0);
        assert(vp9_arrival(before, p) == seq![p]);
        assert(seq![p] =~= ps.take(1));
        assert(!vp9_discards(before, p));
        if count == 1 {
            assert(ps.take(1) =~= ps);
        }
    } else {
        lemma_feed_in_order(buf, frame, chunk, payload_type, ssrc, first_seq, timestamp, n - 1);
        let before = buffer_after(buf, ps, n);
        assert(before == ps.take(n));
        assert(before[0] == ps[0]);
        lemma_seq_distance_after(first_seq, 0);
        lemma_seq_distance_after(first_seq, n);
        lemma_seq_distance_after(first_seq, n - 1);
        assert(ps[0].sequence_number == first_seq);
        assert(before.last() == ps[n - 1]);
        assert(insert_index(before, first_seq, n) == n);
        assert(before.insert(n, p) =~= ps.take(n + 1));
        assert(!vp9_discards(before, p));
        if n == count - 1 {
            assert(ps.take(n + 1) =~= ps);
        }
    }
}

} // verus!
