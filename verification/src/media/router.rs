//! Decisions of the media router: who gets a frame, with what priority, and
//! what gives way when an outbound queue is full.
use vstd::prelude::*;
use crate::error::{MediaFault, SfuError};
use crate::feedback::{SessionId, TrackId};
use crate::media::codec::CodecType;
use crate::media::depacketizer::{reassemble, vp9_arrival, vp9_emits, RtpDepacketizer};
use crate::media::frame::{classify, classify_frame, FrameType};
use crate::media::rtp::{spec_parse, RtpPacket, RtpPacketView};
use crate::session::GraphView;
use crate::session::DefaultSessionManager;
use crate::simulcast::manager::{advanced, DefaultSimulcastManager, TrackView};
use crate::simulcast::{spec_forwards, LayerId, SubscriptionEvent};

verus! {

/// How much a packet matters when a queue is full. Critical packets are
/// never dropped.
#[derive(Clone, Copy, Debug, PartialEq, Eq, Structural)]
pub enum PacketPriority {
    /// Audio and video key frames.
    Critical,
    /// Video delta frames of the base spatial layer.
    High,
    /// Video delta frames of the first spatial layer above the base.
    Medium,
    /// Video delta frames of higher spatial layers.
    Low,
}

/// A packet on its way through the router.
pub struct RoutableMediaPacket {
    pub track_id: TrackId,
    pub publisher_id: SessionId,
    pub packet: Vec<u8>,
    pub priority: PacketPriority,
    pub timestamp_ms: u64,
}

/// How a packet is to be adapted before it is forwarded.
#[derive(Clone, Copy, Debug, PartialEq, Eq, Structural)]
pub struct AdaptationParams {
    pub target_bitrate: u32,
    pub drop_non_essential: bool,
}

/// To whom a packet goes.
pub struct ForwardingDecision {
    pub target_subscribers: Vec<SessionId>,
    pub adapt: bool,
    pub adaptation_params: Option<AdaptationParams>,
}

/// The layer a video frame belongs to.
#[derive(Clone, Copy, Debug, PartialEq, Eq, Structural)]
pub struct FrameLayer {
    pub layer_id: LayerId,
    pub spatial_id: u8,
    pub temporal_id: u8,
}

/// The priority of a frame at ingress.
pub open spec fn priority_of(frame_type: FrameType, spatial_layer: Option<u8>) -> PacketPriority {
    match frame_type {
        FrameType::Audio => PacketPriority::Critical,
        FrameType::VideoKey => PacketPriority::Critical,
        FrameType::VideoDelta => match spatial_layer {
            None => PacketPriority::High,
            Some(s) => if s == 0 {
                PacketPriority::High
            } else if s == 1 {
                PacketPriority::Medium
            } else {
                PacketPriority::Low
            },
        },
    }
}

/// The priority of a frame at ingress.
pub fn assign_priority(frame_type: FrameType, spatial_layer: Option<u8>) -> (p: PacketPriority)
    ensures
        p == priority_of(frame_type, spatial_layer),
{
    match frame_type {
        FrameType::Audio => PacketPriority::Critical,
        FrameType::VideoKey => PacketPriority::Critical,
        FrameType::VideoDelta => match spatial_layer {
            None => PacketPriority::High,
            Some(s) => if s == 0 {
                PacketPriority::High
            } else if s == 1 {
                PacketPriority::Medium
            } else {
                PacketPriority::Low
            },
        },
    }
}

/// Index of the last packet of the given priority, or -1 if there is none.
pub open spec fn last_of(ps: Seq<PacketPriority>, priority: PacketPriority) -> int
    decreases ps.len(),
{
    if ps.len() == 0 {
        -1
    } else if ps.last() == priority {
        ps.len() - 1
    } else {
        last_of(ps.drop_last(), priority)
    }
}

/// Which packet of a full queue gives way: the last Low packet, else the
/// last Medium packet, else the last High packet, else none (-1).
pub open spec fn victim_of(ps: Seq<PacketPriority>) -> int {
    if last_of(ps, PacketPriority::Low) >= 0 {
        last_of(ps, PacketPriority::Low)
    } else if last_of(ps, PacketPriority::Medium) >= 0 {
        last_of(ps, PacketPriority::Medium)
    } else {
        last_of(ps, PacketPriority::High)
    }
}

fn find_last(ps: &Vec<PacketPriority>, priority: PacketPriority) -> (r: Option<usize>)
    ensures
        match r {
            Some(i) => i == last_of(ps@, priority) && i < ps@.len(),
            None => last_of(ps@, priority) == -1,
        },
{
    let mut i = ps.len();
    assert(ps@.take(i as int) =~= ps@);
    while i > 0
        invariant
            i <= ps@.len(),
            last_of(ps@, priority) == last_of(ps@.take(i as int), priority),
        decreases i,
    {
        assert(ps@.take(i as int).drop_last() =~= ps@.take(i - 1));
        if ps[i - 1] == priority {
            return Some(i - 1);
        }
        i = i - 1;
    }
    None
}

/// Chooses the packet that gives way when a queue with the given
/// priorities, oldest first, is above its watermark: the most recent Low
/// packet, else the most recent Medium packet, else the most recent High
/// packet. Critical packets stay.
pub fn choose_victim(ps: &Vec<PacketPriority>) -> (r: Option<usize>)
    ensures
        match r {
            Some(i) => i == victim_of(ps@) && i < ps@.len() && ps@[i as int]
                != PacketPriority::Critical,
            None => victim_of(ps@) == -1,
        },
{
    proof {
        lemma_last_of(ps@, PacketPriority::Low);
        lemma_last_of(ps@, PacketPriority::Medium);
        lemma_last_of(ps@, PacketPriority::High);
    }
    match find_last(ps, PacketPriority::Low) {
        Some(i) => Some(i),
        None => match find_last(ps, PacketPriority::Medium) {
            Some(i) => Some(i),
            None => find_last(ps, PacketPriority::High),
        },
    }
}

/// The priorities of a run of packets.
pub open spec fn priorities_of(packets: Seq<RoutableMediaPacket>) -> Seq<PacketPriority> {
    Seq::new(packets.len(), |i: int| packets[i].priority)
}

/// The queue after a packet was added at the back: with room, or without
/// a victim, all packets stay; else the victim leaves.
pub open spec fn enqueued(
    packets: Seq<RoutableMediaPacket>,
    capacity: usize,
    packet: RoutableMediaPacket,
) -> Seq<RoutableMediaPacket> {
    let all = packets.push(packet);
    let victim = victim_of(priorities_of(all));
    if packets.len() < capacity || victim < 0 {
        all
    } else {
        all.remove(victim)
    }
}

/// The packet that leaves when a packet is added at the back, if one does.
pub open spec fn dropped_by(
    packets: Seq<RoutableMediaPacket>,
    capacity: usize,
    packet: RoutableMediaPacket,
) -> Option<RoutableMediaPacket> {
    let all = packets.push(packet);
    let victim = victim_of(priorities_of(all));
    if packets.len() < capacity || victim < 0 {
        None
    } else {
        Some(all[victim])
    }
}

/// The queue after the first `n` of `items` were added one after the other.
pub open spec fn enqueued_all(
    packets: Seq<RoutableMediaPacket>,
    capacity: usize,
    items: Seq<RoutableMediaPacket>,
    n: int,
) -> Seq<RoutableMediaPacket>
    decreases n,
{
    if n <= 0 {
        packets
    } else {
        enqueued(enqueued_all(packets, capacity, items, n - 1), capacity, items[n - 1])
    }
}

/// The outbound queue of one subscriber. It holds at most its capacity,
/// unless everything in it is critical.
pub struct OutboundQueue {
    capacity: usize,
    packets: Vec<RoutableMediaPacket>,
}

impl OutboundQueue {
    /// The packets waiting, oldest first.
    pub closed spec fn packets(&self) -> Seq<RoutableMediaPacket> {
        self.packets@
    }

    /// The number of packets above which one gives way.
    pub closed spec fn capacity(&self) -> usize {
        self.capacity
    }

    /// An empty queue.
    pub fn new(capacity: usize) -> (q: OutboundQueue)
        ensures
            q.capacity() == capacity,
            q.packets() == Seq::<RoutableMediaPacket>::empty(),
    {
        OutboundQueue { capacity, packets: Vec::new() }
    }

    /// The number of packets waiting.
    pub fn len(&self) -> (n: usize)
        ensures
            n == self.packets().len(),
    {
        self.packets.len()
    }

    /// Adds a packet at the back. If the queue was at its capacity, the
    /// victim among the packets, the new one included, is dropped and
    /// returned; critical packets are never dropped.
    pub fn enqueue(&mut self, packet: RoutableMediaPacket) -> (dropped: Option<RoutableMediaPacket>)
        ensures
            final(self).capacity() == old(self).capacity(),
            final(self).packets() == enqueued(old(self).packets(), old(self).capacity(), packet),
            dropped == dropped_by(old(self).packets(), old(self).capacity(), packet),
            dropped matches Some(d) ==> d.priority != PacketPriority::Critical,
    {
        let was_full = self.packets.len() >= self.capacity;
        self.packets.push(packet);
        if !was_full {
            return None;
        }
        let mut priorities: Vec<PacketPriority> = Vec::new();
        let mut i: usize = 0;
        while i < self.packets.len()
            invariant
                i <= self.packets@.len(),
                priorities@ == priorities_of(self.packets@).take(i as int),
            decreases self.packets@.len() - i,
        {
            priorities.push(self.packets[i].priority);
            i = i + 1;
            assert(priorities@ =~= priorities_of(self.packets@).take(i as int));
        }
        assert(priorities@ =~= priorities_of(self.packets@));
        match choose_victim(&priorities) {
            Some(victim) => Some(self.packets.remove(victim)),
            None => None,
        }
    }

    /// Takes the oldest packet, if any.
    pub fn dequeue(&mut self) -> (r: Option<RoutableMediaPacket>)
        ensures
            final(self).capacity() == old(self).capacity(),
            match r {
                Some(p) => old(self).packets().len() > 0 && p == old(self).packets()[0]
                    && final(self).packets() == old(self).packets().skip(1),
                None => old(self).packets().len() == 0 && final(self).packets() == old(
                    self,
                ).packets(),
            },
    {
        if self.packets.len() == 0 {
            None
        } else {
            let p = self.packets.remove(0);
            assert(self.packets@ =~= old(self).packets@.skip(1));
            Some(p)
        }
    }
}

/// The last packet of a priority has that priority, and none after it has.
pub proof fn lemma_last_of(ps: Seq<PacketPriority>, priority: PacketPriority)
    ensures
        -1 <= last_of(ps, priority) < ps.len(),
        last_of(ps, priority) >= 0 ==> ps[last_of(ps, priority)] == priority,
        forall|k: int| last_of(ps, priority) < k < ps.len() ==> ps[k] != priority,
    decreases ps.len(),
{
    if ps.len() > 0 && ps.last() != priority {
        lemma_last_of(ps.drop_last(), priority);
        assert forall|k: int| last_of(ps, priority) < k < ps.len() implies ps[k] != priority by {
            if k < ps.len() - 1 {
                assert(ps.drop_last()[k] == ps[k]);
            }
        }
    }
}

/// Whether a frame goes to a subscriber of a track. A subscriber without a
/// selection, and a frame without layer indices, are not filtered; else the
/// frame's indices must not exceed those of the subscriber's layer.
pub open spec fn reaches(
    m: Map<TrackId, TrackView>,
    track_id: TrackId,
    subscriber_id: SessionId,
    layer: Option<FrameLayer>,
) -> bool {
    match layer {
        None => true,
        Some(l) => {
            if m.contains_key(track_id) && m[track_id].selections.contains_key(subscriber_id) {
                spec_forwards(
                    m[track_id].layers[m[track_id].selections[subscriber_id].spec_committed() as int],
                    l.spatial_id,
                    l.temporal_id,
                )
            } else {
                true
            }
        },
    }
}

/// The selector's tracks after a frame passed a subscriber: a key frame
/// with a layer commits an upgrade that waited for it.
pub open spec fn passed(
    m: Map<TrackId, TrackView>,
    track_id: TrackId,
    subscriber_id: SessionId,
    frame_type: FrameType,
    layer: Option<FrameLayer>,
) -> Map<TrackId, TrackView> {
    match layer {
        Some(l) if frame_type == FrameType::VideoKey => advanced(
            m,
            track_id,
            subscriber_id,
            SubscriptionEvent::KeyFrame { layer: l.layer_id },
        ),
        _ => m,
    }
}

/// The selector's tracks after a frame passed the first `n` subscribers.
pub open spec fn passed_all(
    m: Map<TrackId, TrackView>,
    track_id: TrackId,
    subscribers: Seq<SessionId>,
    frame_type: FrameType,
    layer: Option<FrameLayer>,
    n: int,
) -> Map<TrackId, TrackView>
    decreases n,
{
    if n <= 0 {
        m
    } else {
        passed(
            passed_all(m, track_id, subscribers, frame_type, layer, n - 1),
            track_id,
            subscribers[n - 1],
            frame_type,
            layer,
        )
    }
}

/// Those of the first `n` subscribers that a frame goes to, each judged
/// after the frame passed it.
pub open spec fn targets_of(
    m: Map<TrackId, TrackView>,
    track_id: TrackId,
    subscribers: Seq<SessionId>,
    frame_type: FrameType,
    layer: Option<FrameLayer>,
    n: int,
) -> Seq<SessionId>
    decreases n,
{
    if n <= 0 {
        Seq::empty()
    } else {
        let before = targets_of(m, track_id, subscribers, frame_type, layer, n - 1);
        if reaches(
            passed_all(m, track_id, subscribers, frame_type, layer, n),
            track_id,
            subscribers[n - 1],
            layer,
        ) {
            before.push(subscribers[n - 1])
        } else {
            before
        }
    }
}

/// Whether `targets` is the decision for a frame of a track: the
/// subscribers of the track were passed one after the other, each was
/// judged after the frame passed it, and `after` is what the selector holds
/// then.
pub open spec fn decision_made(
    g: GraphView,
    before: Map<TrackId, TrackView>,
    after: Map<TrackId, TrackView>,
    track_id: TrackId,
    frame_type: FrameType,
    layer: Option<FrameLayer>,
    targets: Seq<SessionId>,
) -> bool {
    exists|subscribers: Seq<SessionId>|
        {
            &&& forall|s: SessionId|
                subscribers.contains(s) <==> g.subscribers(track_id).contains(s)
            &&& targets == targets_of(
                before,
                track_id,
                subscribers,
                frame_type,
                layer,
                subscribers.len() as int,
            )
            &&& after == passed_all(
                before,
                track_id,
                subscribers,
                frame_type,
                layer,
                subscribers.len() as int,
            )
        }
}

/// A frame that came in complete, with what the router decided for it.
pub struct RoutedFrame {
    pub data: Vec<u8>,
    pub timestamp: u32,
    pub frame_type: FrameType,
    pub priority: PacketPriority,
    pub target_subscribers: Vec<SessionId>,
}

/// The spatial index of a frame's layer, if it has one.
pub open spec fn spatial_of(layer: Option<FrameLayer>) -> Option<u8> {
    match layer {
        Some(l) => Some(l.spatial_id),
        None => None,
    }
}

/// The frame that the arrival of a packet completes on a track of the
/// given codec, if it completes one.
pub open spec fn completed_frame(
    codec_type: CodecType,
    buffer: Seq<RtpPacketView>,
    p: RtpPacketView,
) -> Option<Seq<u8>> {
    match codec_type {
        CodecType::Opus => Some(p.payload),
        CodecType::VP9 => if vp9_emits(buffer, p) {
            Some(reassemble(vp9_arrival(buffer, p)))
        } else {
            None
        },
        _ => None,
    }
}

/// The media router.
pub struct DefaultMediaRouter {}

impl DefaultMediaRouter {
    /// A router.
    pub fn new() -> (r: DefaultMediaRouter) {
        DefaultMediaRouter {  }
    }

    /// Passes a frame by one subscriber and says whether it is forwarded. A
    /// key frame first commits an upgrade that waited for its layer, so the
    /// switch takes effect on this frame.
    pub fn forward_to(
        &self,
        selector: &mut DefaultSimulcastManager,
        track_id: TrackId,
        subscriber_id: SessionId,
        frame_type: FrameType,
        layer: Option<FrameLayer>,
    ) -> (r: bool)
        requires
            old(selector).wf(),
        ensures
            final(selector).wf(),
            final(selector)@ == passed(old(selector)@, track_id, subscriber_id, frame_type, layer),
            r == reaches(final(selector)@, track_id, subscriber_id, layer),
    {
        match layer {
            None => true,
            Some(l) => {
                if matches!(frame_type, FrameType::VideoKey) {
                    selector.key_frame_forwarded(track_id, subscriber_id, l.layer_id);
                }
                match selector.committed_layer(track_id, subscriber_id) {
                    None => true,
                    Some(selected) => crate::simulcast::forwards(
                        selected,
                        l.spatial_id,
                        l.temporal_id,
                    ),
                }
            },
        }
    }

    /// Decides to which subscribers of a track a frame goes. Fails if no
    /// such track is published.
    pub fn get_forwarding_decision(
        &self,
        registry: &DefaultSessionManager,
        selector: &mut DefaultSimulcastManager,
        track_id: TrackId,
        frame_type: FrameType,
        layer: Option<FrameLayer>,
    ) -> (r: Result<ForwardingDecision, SfuError>)
        requires
            old(selector).wf(),
        ensures
            final(selector).wf(),
            match r {
                Ok(d) => {
                    &&& registry@.has_track(track_id)
                    &&& !d.adapt && d.adaptation_params.is_none()
                    &&& decision_made(
                        registry@,
                        old(selector)@,
                        final(selector)@,
                        track_id,
                        frame_type,
                        layer,
                        d.target_subscribers@,
                    )
                },
                Err(e) => !registry@.has_track(track_id) && e == SfuError::Media(
                    MediaFault::TrackNotFound,
                ) && final(selector)@ == old(selector)@,
            },
    {
        if !registry.has_track(track_id) {
            return Err(SfuError::Media(MediaFault::TrackNotFound));
        }
        let subscribers = registry.get_subscribers(track_id);
        let mut targets: Vec<SessionId> = Vec::new();
        let mut i: usize = 0;
        while i < subscribers.len()
            invariant
                i <= subscribers@.len(),
                selector.wf(),
                selector@ == passed_all(
                    old(selector)@,
                    track_id,
                    subscribers@,
                    frame_type,
                    layer,
                    i as int,
                ),
                targets@ == targets_of(
                    old(selector)@,
                    track_id,
                    subscribers@,
                    frame_type,
                    layer,
                    i as int,
                ),
            decreases subscribers@.len() - i,
        {
            if self.forward_to(selector, track_id, subscribers[i], frame_type, layer) {
                targets.push(subscribers[i]);
            }
            i = i + 1;
        }
        Ok(ForwardingDecision { target_subscribers: targets, adapt: false, adaptation_params: None })
    }

    /// Takes one packet from a publisher's flow through the router: parses
    /// it, hands it to the track's depacketizer, and, if that completes a
    /// frame, classifies the frame, gives it its priority and decides who
    /// gets it. A packet that does not parse is refused and changes nothing.
    pub fn process_packet(
        &self,
        registry: &DefaultSessionManager,
        selector: &mut DefaultSimulcastManager,
        depacketizer: &mut RtpDepacketizer,
        track_id: TrackId,
        data: &[u8],
        layer: Option<FrameLayer>,
    ) -> (r: Result<Option<RoutedFrame>, SfuError>)
        requires
            old(selector).wf(),
        ensures
            final(selector).wf(),
            final(depacketizer).codec_type() == old(depacketizer).codec_type(),
            match spec_parse(data@) {
                None => {
                    &&& r == Err::<Option<RoutedFrame>, SfuError>(
                        SfuError::Media(MediaFault::MalformedPacket),
                    )
                    &&& final(depacketizer).buffer() == old(depacketizer).buffer()
                    &&& final(selector)@ == old(selector)@
                },
                Some(p) => {
                    let codec = old(depacketizer).codec_type();
                    &&& final(depacketizer).buffer() == (match codec {
                        CodecType::VP9 => if vp9_emits(old(depacketizer).buffer(), p) {
                            Seq::empty()
                        } else {
                            vp9_arrival(old(depacketizer).buffer(), p)
                        },
                        _ => old(depacketizer).buffer(),
                    })
                    &&& if codec != CodecType::Opus && codec != CodecType::VP9 {
                        r == Err::<Option<RoutedFrame>, SfuError>(
                            SfuError::Media(MediaFault::UnsupportedCodec),
                        ) && final(selector)@ == old(selector)@
                    } else {
                        match completed_frame(codec, old(depacketizer).buffer(), p) {
                            None => r == Ok::<Option<RoutedFrame>, SfuError>(None)
                                && final(selector)@ == old(selector)@,
                            Some(frame) => if !registry@.has_track(track_id) {
                                r == Err::<Option<RoutedFrame>, SfuError>(
                                    SfuError::Media(MediaFault::TrackNotFound),
                                ) && final(selector)@ == old(selector)@
                            } else {
                                &&& r.is_ok() && r.unwrap().is_some()
                                &&& r.unwrap().unwrap().data@ == frame
                                &&& r.unwrap().unwrap().timestamp == p.timestamp
                                &&& r.unwrap().unwrap().frame_type == classify(codec, frame)
                                &&& r.unwrap().unwrap().priority == priority_of(
                                    classify(codec, frame),
                                    spatial_of(layer),
                                )
                                &&& decision_made(
                                    registry@,
                                    old(selector)@,
                                    final(selector)@,
                                    track_id,
                                    classify(codec, frame),
                                    layer,
                                    r.unwrap().unwrap().target_subscribers@,
                                )
                            },
                        }
                    }
                },
            },
    {
        let packet = match RtpPacket::parse(data) {
            Ok(packet) => packet,
            Err(e) => {
                return Err(e);
            },
        };
        let timestamp = packet.header.timestamp;
        let codec = depacketizer.codec();
        let frame = match depacketizer.process_packet(packet) {
            Ok(Some(frame)) => frame,
            Ok(None) => {
                return Ok(None);
            },
            Err(e) => {
                return Err(e);
            },
        };
        let frame_type = classify_frame(codec, frame.as_slice());
        let spatial = match layer {
            Some(l) => Some(l.spatial_id),
            None => None,
        };
        let priority = assign_priority(frame_type, spatial);
        match self.get_forwarding_decision(registry, selector, track_id, frame_type, layer) {
            Ok(decision) => Ok(
                Some(
                    RoutedFrame {
                        data: frame,
                        timestamp,
                        frame_type,
                        priority,
                        target_subscribers: decision.target_subscribers,
                    },
                ),
            ),
            Err(e) => Err(e),
        }
    }
}

} // verus!
