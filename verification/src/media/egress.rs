//! The outbound leg of one subscription: the packetizer that owns the
//! subscriber's sequence counter for the track, and the queue before the
//! subscriber's flow.
use vstd::prelude::*;
use crate::buffer::bytes_as_slice;
use crate::error::{MediaFault, SfuError};
use crate::feedback::{SessionId, TrackId};
use crate::media::codec::CodecType;
use crate::media::packetizer::{
    fragment_count, lemma_fragment_count, opus_packet, packet_views, seq_after, vp9_packets,
    RtpPacketizer,
};
use crate::media::router::{
    dropped_by, enqueued, enqueued_all, OutboundQueue, PacketPriority, RoutableMediaPacket,
};
use crate::media::rtp::{spec_serialize, wire_len, RtpPacketView};

verus! {

/// The packets that a packetizer makes of a frame, or the reason for which
/// it refuses the frame.
pub open spec fn frame_packets(p: RtpPacketizer, frame: Seq<u8>, timestamp: u32) -> Result<
    Seq<RtpPacketView>,
    SfuError,
> {
    match p.codec_type() {
        CodecType::Opus => Ok(
            seq![opus_packet(frame, p.payload_type(), p.ssrc(), p.sequence_number(), timestamp)],
        ),
        CodecType::VP9 => if p.max_payload_size() < 2 {
            Err(SfuError::Media(MediaFault::InvalidPayloadSize))
        } else {
            Ok(
                vp9_packets(
                    frame,
                    p.max_payload_size() - 1,
                    p.payload_type(),
                    p.ssrc(),
                    p.sequence_number(),
                    timestamp,
                ),
            )
        },
        _ => Err(SfuError::Media(MediaFault::UnsupportedCodec)),
    }
}

/// How many packets left the queue while the first `n` of `items` were
/// added.
pub open spec fn dropped_count(
    packets: Seq<RoutableMediaPacket>,
    capacity: usize,
    items: Seq<RoutableMediaPacket>,
    n: int,
) -> int
    decreases n,
{
    if n <= 0 {
        0
    } else {
        dropped_count(packets, capacity, items, n - 1) + (if dropped_by(
            enqueued_all(packets, capacity, items, n - 1),
            capacity,
            items[n - 1],
        ).is_some() {
            1int
        } else {
            0int
        })
    }
}

/// Whether `items` are the packets `views` on the wire, queued for a track
/// with the given priority at the given time.
pub open spec fn queued_as(
    items: Seq<RoutableMediaPacket>,
    views: Seq<RtpPacketView>,
    track_id: TrackId,
    publisher_id: SessionId,
    priority: PacketPriority,
    now_ms: u64,
) -> bool {
    &&& items.len() == views.len()
    &&& forall|i: int|
        0 <= i < items.len() ==> {
            &&& (#[trigger] items[i]).packet@ == spec_serialize(views[i])
            &&& items[i].track_id == track_id
            &&& items[i].publisher_id == publisher_id
            &&& items[i].priority == priority
            &&& items[i].timestamp_ms == now_ms
        }
}

/// One subscriber's leg of one track.
pub struct OutboundLeg {
    subscriber_id: SessionId,
    track_id: TrackId,
    publisher_id: SessionId,
    packetizer: RtpPacketizer,
    queue: OutboundQueue,
}

impl OutboundLeg {
    /// The subscriber at the end of the leg.
    pub closed spec fn subscriber(&self) -> SessionId {
        self.subscriber_id
    }

    /// The track that the leg carries.
    pub closed spec fn track(&self) -> TrackId {
        self.track_id
    }

    /// The publisher of the track.
    pub closed spec fn publisher(&self) -> SessionId {
        self.publisher_id
    }

    /// The leg's packetizer.
    pub closed spec fn packetizer(&self) -> RtpPacketizer {
        self.packetizer
    }

    /// The leg's queue.
    pub closed spec fn queue(&self) -> OutboundQueue {
        self.queue
    }

    /// A leg with its own sequence counter, starting at 0, the given
    /// synchronisation source and an empty queue.
    pub fn new(
        subscriber_id: SessionId,
        track_id: TrackId,
        publisher_id: SessionId,
        codec_type: CodecType,
        payload_type: u8,
        ssrc: u32,
        capacity: usize,
    ) -> (leg: OutboundLeg)
        ensures
            leg.subscriber() == subscriber_id,
            leg.track() == track_id,
            leg.publisher() == publisher_id,
            leg.packetizer().codec_type() == codec_type,
            leg.packetizer().payload_type() == payload_type,
            leg.packetizer().ssrc() == ssrc,
            leg.packetizer().sequence_number() == 0,
            leg.queue().capacity() == capacity,
            leg.queue().packets() == Seq::<RoutableMediaPacket>::empty(),
    {
        OutboundLeg {
            subscriber_id,
            track_id,
            publisher_id,
            packetizer: RtpPacketizer::new(codec_type, payload_type, ssrc),
            queue: OutboundQueue::new(capacity),
        }
    }

    /// The subscriber at the end of the leg.
    pub fn subscriber_id(&self) -> (s: SessionId)
        ensures
            s == self.subscriber(),
    {
        self.subscriber_id
    }

    /// Takes the oldest queued packet for sending, if any.
    pub fn next_packet(&mut self) -> (r: Option<RoutableMediaPacket>)
        ensures
            final(self).subscriber() == old(self).subscriber(),
            final(self).track() == old(self).track(),
            final(self).publisher() == old(self).publisher(),
            final(self).packetizer() == old(self).packetizer(),
            final(self).queue().capacity() == old(self).queue().capacity(),
            match r {
                Some(p) => old(self).queue().packets().len() > 0 && p == old(
                    self,
                ).queue().packets()[0] && final(self).queue().packets() == old(
                    self,
                ).queue().packets().skip(1),
                None => old(self).queue().packets().len() == 0 && final(self).queue().packets()
                    == old(self).queue().packets(),
            },
    {
        self.queue.dequeue()
    }

    /// Packetizes a frame against the leg's sequence counter and queues the
    /// packets, each as it goes on the wire, in order. Returns how many
    /// packets the queue dropped meanwhile. A frame that the packetizer
    /// refuses changes nothing but the packetizer's timestamp.
    pub fn send_frame(&mut self, frame: &[u8], timestamp: u32, priority: PacketPriority, now_ms: u64) -> (r:
        Result<usize, SfuError>)
        requires
            frame@.len() < isize::MAX - 16,
        ensures
            final(self).subscriber() == old(self).subscriber(),
            final(self).track() == old(self).track(),
            final(self).publisher() == old(self).publisher(),
            final(self).queue().capacity() == old(self).queue().capacity(),
            final(self).packetizer().codec_type() == old(self).packetizer().codec_type(),
            final(self).packetizer().payload_type() == old(self).packetizer().payload_type(),
            final(self).packetizer().ssrc() == old(self).packetizer().ssrc(),
            final(self).packetizer().max_payload_size() == old(
                self,
            ).packetizer().max_payload_size(),
            final(self).packetizer().timestamp() == timestamp,
            match frame_packets(old(self).packetizer(), frame@, timestamp) {
                Err(e) => {
                    &&& r == Err::<usize, SfuError>(e)
                    &&& final(self).queue().packets() == old(self).queue().packets()
                    &&& final(self).packetizer().sequence_number() == old(
                        self,
                    ).packetizer().sequence_number()
                },
                Ok(views) => {
                    &&& r.is_ok()
                    &&& final(self).packetizer().sequence_number() == seq_after(
                        old(self).packetizer().sequence_number(),
                        views.len() as int,
                    )
                    &&& exists|items: Seq<RoutableMediaPacket>|
                        {
                            &&& queued_as(
                                items,
                                views,
                                old(self).track(),
                                old(self).publisher(),
                                priority,
                                now_ms,
                            )
                            &&& final(self).queue().packets() == enqueued_all(
                                old(self).queue().packets(),
                                old(self).queue().capacity(),
                                items,
                                items.len() as int,
                            )
                            &&& r.unwrap() == dropped_count(
                                old(self).queue().packets(),
                                old(self).queue().capacity(),
                                items,
                                items.len() as int,
                            )
                        }
                },
            },
    {
        let ghost before = self.packetizer;
        let packets = match self.packetizer.packetize(frame, timestamp) {
            Ok(packets) => packets,
            Err(e) => {
                return Err(e);
            },
        };
        let ghost views = frame_packets(before, frame@, timestamp).unwrap();
        assert(packet_views(packets@) == views);
        assert(views.len() == packets@.len());
        let ghost start = self.queue.packets();
        let ghost capacity = self.queue.capacity();
        let ghost mut items: Seq<RoutableMediaPacket> = Seq::empty();
        let mut dropped: usize = 0;
        let mut i: usize = 0;
        while i < packets.len()
            invariant
                i <= packets@.len(),
                frame@.len() < isize::MAX - 16,
                views == frame_packets(before, frame@, timestamp).unwrap(),
                frame_packets(before, frame@, timestamp).is_ok(),
                packet_views(packets@) == views,
                self.subscriber_id == old(self).subscriber_id,
                self.track_id == old(self).track_id,
                self.publisher_id == old(self).publisher_id,
                self.queue.capacity() == capacity,
                self.packetizer.codec_type() == before.codec_type(),
                self.packetizer.payload_type() == before.payload_type(),
                self.packetizer.ssrc() == before.ssrc(),
                self.packetizer.max_payload_size() == before.max_payload_size(),
                self.packetizer.timestamp() == timestamp,
                self.packetizer.sequence_number() == seq_after(
                    before.sequence_number(),
                    views.len() as int,
                ),
                queued_as(
                    items,
                    views.take(i as int),
                    self.track_id,
                    self.publisher_id,
                    priority,
                    now_ms,
                ),
                self.queue.packets() == enqueued_all(start, capacity, items, i as int),
                dropped == dropped_count(start, capacity, items, i as int),
                dropped <= i,
            decreases packets@.len() - i,
        {
            proof {
                assert(packets@[i as int]@ == views[i as int]);
                lemma_packet_fits(before, frame@, timestamp, i as int);
            }
            let wire = packets[i].serialize();
            let bytes = vstd::slice::slice_to_vec(bytes_as_slice(&wire));
            let item = RoutableMediaPacket {
                track_id: self.track_id,
                publisher_id: self.publisher_id,
                packet: bytes,
                priority,
                timestamp_ms: now_ms,
            };
            let ghost earlier = items;
            proof {
                items = items.push(item);
                assert(items.drop_last() =~= earlier);
                assert forall|n: int| 0 <= n <= i implies enqueued_all(start, capacity, items, n)
                    == enqueued_all(start, capacity, earlier, n) && dropped_count(
                    start,
                    capacity,
                    items,
                    n,
                ) == dropped_count(start, capacity, earlier, n) by {
                    lemma_prefix_only(start, capacity, earlier, items, n);
                }
            }
            let out = self.queue.enqueue(item);
            if out.is_some() {
                dropped = dropped + 1;
            }
            i = i + 1;
        }
        proof {
            assert(views.take(i as int) =~= views);
            assert(items.len() == i);
            assert(queued_as(
                items,
                views,
                old(self).track(),
                old(self).publisher(),
                priority,
                now_ms,
            ));
            assert(self.queue().packets() == enqueued_all(
                old(self).queue().packets(),
                old(self).queue().capacity(),
                items,
                items.len() as int,
            ));
            assert(dropped == dropped_count(
                old(self).queue().packets(),
                old(self).queue().capacity(),
                items,
                items.len() as int,
            ));
            assert(frame_packets(old(self).packetizer(), frame@, timestamp) == Ok::<
                Seq<RtpPacketView>,
                SfuError,
            >(views));
        }
        Ok(dropped)
    }
}

proof fn lemma_prefix_only(
    start: Seq<RoutableMediaPacket>,
    capacity: usize,
    a: Seq<RoutableMediaPacket>,
    b: Seq<RoutableMediaPacket>,
    n: int,
)
    requires
        0 <= n <= a.len() <= b.len(),
        forall|k: int| 0 <= k < a.len() ==> a[k] == b[k],
    ensures
        enqueued_all(start, capacity, a, n) == enqueued_all(start, capacity, b, n),
        dropped_count(start, capacity, a, n) == dropped_count(start, capacity, b, n),
    decreases n,
{
    if n > 0 {
        lemma_prefix_only(start, capacity, a, b, n - 1);
    }
}

proof fn lemma_packet_fits(p: RtpPacketizer, frame: Seq<u8>, timestamp: u32, i: int)
    requires
        frame_packets(p, frame, timestamp).is_ok(),
        0 <= i < frame_packets(p, frame, timestamp).unwrap().len(),
    ensures
        wire_len(frame_packets(p, frame, timestamp).unwrap()[i]) <= 13 + frame.len(),
{
    let views = frame_packets(p, frame, timestamp).unwrap();
    if p.codec_type() == CodecType::VP9 {
        let chunk = p.max_payload_size() - 1;
        lemma_fragment_count(frame.len() as int, chunk, i);
        assert(0 <= i * chunk) by (nonlinear_arith)
            requires
                0 <= i,
                0 < chunk,
        ;
    }
}

} // verus!
