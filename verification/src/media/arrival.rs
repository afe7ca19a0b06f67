//! Fragments that arrive out of order: what the depacketizer makes of them.
use vstd::prelude::*;
use crate::media::depacketizer::{
    buffer_after, insert_index, lemma_descriptor_bits, lemma_reassemble_prefix,
    lemma_seq_after_step, lemma_seq_distance_after, output_at, reassemble, seq_distance,
    seq_follows, starts_frame, vp9_arrival, vp9_discards,
};
use crate::media::packetizer::{
    fragment_count, lemma_fragment_count, seq_after, vp9_packets, vp9_payload,
};
use crate::media::rtp::RtpPacketView;

verus! {

/// An order of arrival for the `count` fragments of a frame in which each
/// fragment arrives once, the first fragment first and the last fragment
/// last.
pub open spec fn first_and_last_in_place(order: Seq<int>, count: int) -> bool {
    &&& order.len() == count
    &&& count >= 1
    &&& order[0] == 0
    &&& order[count - 1] == count - 1
    &&& forall|i: int| 0 <= i < count ==> 0 <= #[trigger] order[i] < count
    &&& forall|i: int, j: int| 0 <= i < j < count ==> #[trigger] order[i] != #[trigger] order[j]
}

/// The packets in their order of arrival.
pub open spec fn arrivals(ps: Seq<RtpPacketView>, order: Seq<int>) -> Seq<RtpPacketView> {
    Seq::new(order.len(), |i: int| ps[order[i]])
}

/// Where `m` goes in a rising sequence: behind the last element that is not
/// above it.
pub open spec fn place_of(s: Seq<int>, m: int) -> int
    decreases s.len(),
{
    if s.len() == 0 {
        0
    } else if s.last() <= m {
        s.len() as int
    } else {
        place_of(s.drop_last(), m)
    }
}

/// The first `n` indices of an order, rising.
pub open spec fn risen(order: Seq<int>, n: int) -> Seq<int>
    decreases n,
{
    if n <= 0 {
        Seq::empty()
    } else {
        let before = risen(order, n - 1);
        before.insert(place_of(before, order[n - 1]), order[n - 1])
    }
}

/// The packets with the given indices.
pub open spec fn picked(ps: Seq<RtpPacketView>, s: Seq<int>) -> Seq<RtpPacketView> {
    Seq::new(s.len(), |i: int| ps[s[i]])
}

spec fn rising(s: Seq<int>) -> bool {
    forall|i: int, j: int| 0 <= i < j < s.len() ==> s[i] < s[j]
}

proof fn lemma_place_of(s: Seq<int>, m: int)
    requires
        rising(s),
    ensures
        0 <= place_of(s, m) <= s.len(),
        forall|i: int| 0 <= i < place_of(s, m) ==> s[i] <= m,
        forall|i: int| place_of(s, m) <= i < s.len() ==> s[i] > m,
    decreases s.len(),
{
    if s.len() > 0 {
        if s.last() <= m {
            assert forall|i: int| 0 <= i < s.len() implies s[i] <= m by {
                if i < s.len() - 1 {
                    assert(s[i] < s[s.len() - 1]);
                }
            }
        } else {
            let rest = s.drop_last();
            assert(rising(rest)) by {
                assert forall|i: int, j: int| 0 <= i < j < rest.len() implies rest[i] < rest[j] by {
                    assert(s[i] < s[j]);
                }
            }
            lemma_place_of(rest, m);
            let at = place_of(s, m);
            assert(at == place_of(rest, m));
            assert forall|i: int| 0 <= i < at implies s[i] <= m by {
                assert(rest[i] == s[i]);
            }
            assert forall|i: int| at <= i < s.len() implies s[i] > m by {
                if i < s.len() - 1 {
                    assert(rest[i] == s[i]);
                }
            }
        }
    }
}

proof fn lemma_risen(order: Seq<int>, count: int, n: int)
    requires
        first_and_last_in_place(order, count),
        0 <= n <= count,
    ensures
        risen(order, n).len() == n,
        rising(risen(order, n)),
        forall|i: int|
            0 <= i < n ==> exists|j: int| 0 <= j < n && order[j] == #[trigger] risen(order, n)[i],
        n >= 1 ==> risen(order, n)[0] == 0,
    decreases n,
{
    if n > 0 {
        lemma_risen(order, count, n - 1);
        let before = risen(order, n - 1);
        let m = order[n - 1];
        lemma_place_of(before, m);
        let at = place_of(before, m);
        let after = risen(order, n);
        assert(after == before.insert(at, m));
        assert forall|i: int| 0 <= i < n - 1 implies before[i] != m by {
            let j = choose|j: int| 0 <= j < n - 1 && order[j] == before[i];
            assert(order[j] != order[n - 1]);
        }
        assert forall|i: int, j: int| 0 <= i < j < after.len() implies after[i] < after[j] by {
            if i < at && j == at {
                assert(after[i] == before[i]);
            } else if i < at && j > at {
                assert(after[i] == before[i] && after[j] == before[j - 1]);
            } else if i == at {
                assert(after[j] == before[j - 1]);
            } else if j < at {
                assert(after[i] == before[i] && after[j] == before[j]);
            } else {
                assert(after[i] == before[i - 1] && after[j] == before[j - 1]);
            }
        }
        assert forall|i: int| 0 <= i < n implies exists|j: int|
            0 <= j < n && order[j] == #[trigger] after[i] by {
            if i == at {
                assert(order[n - 1] == after[i]);
            } else {
                let k = if i < at { i } else { i - 1 };
                assert(after[i] == before[k]);
                let j = choose|j: int| 0 <= j < n - 1 && order[j] == before[k];
                assert(order[j] == after[i]);
            }
        }
        if n == 1 {
            assert(after[0] == m);
        } else {
            assert(before[0] == 0);
            assert(0 <= m);
            if at == 0 {
                assert(before[0] > m);
            }
            assert(after[0] == before[0]);
        }
    }
}

proof fn lemma_rising_is_identity(s: Seq<int>, i: int)
    requires
        rising(s),
        forall|k: int| 0 <= k < s.len() ==> 0 <= #[trigger] s[k] < s.len(),
        0 <= i < s.len(),
    ensures
        s[i] == i,
{
    lemma_rising_lower(s, i);
    lemma_rising_upper(s, i);
}

proof fn lemma_rising_lower(s: Seq<int>, i: int)
    requires
        rising(s),
        forall|k: int| 0 <= k < s.len() ==> 0 <= #[trigger] s[k] < s.len(),
        0 <= i < s.len(),
    ensures
        s[i] >= i,
    decreases i,
{
    if i > 0 {
        lemma_rising_lower(s, i - 1);
        assert(s[i - 1] < s[i]);
    }
}

proof fn lemma_rising_upper(s: Seq<int>, i: int)
    requires
        rising(s),
        forall|k: int| 0 <= k < s.len() ==> 0 <= #[trigger] s[k] < s.len(),
        0 <= i < s.len(),
    ensures
        s[i] <= i,
    decreases s.len() - i,
{
    if i < s.len() - 1 {
        lemma_rising_upper(s, i + 1);
        assert(s[i] < s[i + 1]);
    }
}

proof fn lemma_insert_index_picked(
    ps: Seq<RtpPacketView>,
    first_seq: u16,
    s: Seq<int>,
    m: int,
)
    requires
        ps.len() <= 0x8000,
        forall|i: int|
            0 <= i < ps.len() ==> seq_distance(first_seq, (#[trigger] ps[i]).sequence_number) == i,
        forall|k: int| 0 <= k < s.len() ==> 0 <= #[trigger] s[k] < ps.len(),
    ensures
        insert_index(picked(ps, s), first_seq, m) == place_of(s, m),
    decreases s.len(),
{
    if s.len() > 0 {
        let b = picked(ps, s);
        assert(b.last() == ps[s.last()]);
        assert(b.drop_last() =~= picked(ps, s.drop_last()));
        assert forall|k: int| 0 <= k < s.drop_last().len() implies 0 <= #[trigger] s.drop_last()[k]
            < ps.len() by {
            assert(s.drop_last()[k] == s[k]);
        }
        lemma_insert_index_picked(ps, first_seq, s.drop_last(), m);
    }
}

proof fn lemma_feed_reordered(
    buf: Seq<RtpPacketView>,
    frame: Seq<u8>,
    chunk: int,
    payload_type: u8,
    ssrc: u32,
    first_seq: u16,
    timestamp: u32,
    order: Seq<int>,
    n: int,
)
    requires
        0 < chunk,
        0 < frame.len(),
        fragment_count(frame.len() as int, chunk) <= 0x8000,
        first_and_last_in_place(order, fragment_count(frame.len() as int, chunk)),
        0 <= n < fragment_count(frame.len() as int, chunk),
    ensures
        ({
            let ps = vp9_packets(frame, chunk, payload_type, ssrc, first_seq, timestamp);
            let count = fragment_count(frame.len() as int, chunk);
            let a = arrivals(ps, order);
            &&& buffer_after(buf, a, n + 1) == (if n == count - 1 {
                Seq::<RtpPacketView>::empty()
            } else {
                picked(ps, risen(order, n + 1))
            })
            &&& output_at(buf, a, n) == (if n == count - 1 {
                Some(reassemble(picked(ps, risen(order, n + 1))))
            } else {
                None::<Seq<u8>>
            })
        }),
    decreases n,
{
    let ps = vp9_packets(frame, chunk, payload_type, ssrc, first_seq, timestamp);
    let count = fragment_count(frame.len() as int, chunk);
    let a = arrivals(ps, order);
    let m = order[n];
    let p = a[n];
    assert(p == ps[m]);
    let len = frame.len() as int;
    let from = m * chunk;
    let to = if from + chunk < len { from + chunk } else { len };
    lemma_descriptor_bits(m == 0, to == len);
    assert(p.payload == vp9_payload(frame, chunk, m));
    assert(p.payload[0] == crate::media::packetizer::vp9_descriptor(m == 0, to == len));
    assert(starts_frame(p.payload) == (m == 0));
    assert(p.marker == (m == count - 1));
    if n < count - 1 {
        assert(order[n] != order[count - 1]);
    }
    assert(p.marker == (n == count - 1));
    lemma_risen(order, count, n);
    lemma_risen(order, count, n + 1);
    if n == 0 {
        let before = buffer_after(buf, a, 0);
        assert(vp9_arrival(before, p) == seq![p]);
        assert(risen(order, 0) =~= Seq::<int>::empty());
        assert(risen(order, 1) =~= seq![0int]);
        assert(seq![p] =~= picked(ps, risen(order, 1)));
        assert(!vp9_discards(before, p));
    } else {
        lemma_feed_reordered(buf, frame, chunk, payload_type, ssrc, first_seq, timestamp, order, n - 1);
        let before = buffer_after(buf, a, n);
        let s = risen(order, n);
        assert(before == picked(ps, s));
        assert(order[0] != order[n]);
        assert(m != 0);
        assert(before[0] == ps[0]);
        lemma_seq_distance_after(first_seq, 0);
        lemma_seq_distance_after(first_seq, m);
        assert(ps[0].sequence_number == first_seq);
        assert forall|i: int| 0 <= i < ps.len() implies seq_distance(
            first_seq,
            (#[trigger] ps[i]).sequence_number,
        ) == i by {
            lemma_seq_distance_after(first_seq, i);
        }
        assert forall|k: int| 0 <= k < s.len() implies 0 <= #[trigger] s[k] < ps.len() by {
            let j = choose|j: int| 0 <= j < n && order[j] == s[k];
            assert(0 <= order[j] < count);
        }
        lemma_insert_index_picked(ps, first_seq, s, m);
        lemma_place_of(s, m);
        assert(!vp9_discards(before, p));
        let at = place_of(s, m);
        assert(before.insert(at, p) =~= picked(ps, s.insert(at, m)));
        assert(vp9_arrival(before, p) == picked(ps, risen(order, n + 1)));
    }
}

/// A VP9 frame comes out of the depacketizer unchanged when its first
/// fragment arrives first, its last fragment last, and the fragments in
/// between in any order: nothing is handed out before the last arrival, and
/// the last arrival hands out the frame. The frame is not empty and takes
/// at most 2^15 fragments.
pub proof fn lemma_vp9_reordered_round_trip(
    buf: Seq<RtpPacketView>,
    frame: Seq<u8>,
    chunk: int,
    payload_type: u8,
    ssrc: u32,
    first_seq: u16,
    timestamp: u32,
    order: Seq<int>,
)
    requires
        0 < chunk,
        0 < frame.len(),
        fragment_count(frame.len() as int, chunk) <= 0x8000,
        first_and_last_in_place(order, fragment_count(frame.len() as int, chunk)),
    ensures
        ({
            let ps = vp9_packets(frame, chunk, payload_type, ssrc, first_seq, timestamp);
            let a = arrivals(ps, order);
            &&& a.len() == ps.len()
            &&& forall|n: int| 0 <= n < a.len() - 1 ==> #[trigger] output_at(buf, a, n).is_none()
            &&& output_at(buf, a, a.len() - 1) == Some(frame)
        }),
{
    let ps = vp9_packets(frame, chunk, payload_type, ssrc, first_seq, timestamp);
    let count = fragment_count(frame.len() as int, chunk);
    let a = arrivals(ps, order);
    assert forall|n: int| 0 <= n < a.len() - 1 implies #[trigger] output_at(buf, a, n).is_none() by {
        lemma_feed_reordered(buf, frame, chunk, payload_type, ssrc, first_seq, timestamp, order, n);
    }
    lemma_feed_reordered(
        buf,
        frame,
        chunk,
        payload_type,
        ssrc,
        first_seq,
        timestamp,
        order,
        count - 1,
    );
    let s = risen(order, count);
    lemma_risen(order, count, count);
    assert forall|k: int| 0 <= k < s.len() implies 0 <= #[trigger] s[k] < s.len() by {
        let j = choose|j: int| 0 <= j < count && order[j] == s[k];
        assert(0 <= order[j] < count);
    }
    assert forall|i: int| 0 <= i < count implies s[i] == i by {
        lemma_rising_is_identity(s, i);
    }
    assert(picked(ps, s) =~= ps);
    lemma_reassemble_prefix(frame, chunk, payload_type, ssrc, first_seq, timestamp, count);
    lemma_fragment_count(frame.len() as int, chunk, count);
    assert(ps.take(count) =~= ps);
    assert(frame.subrange(0, frame.len() as int) =~= frame);
}

/// On one outbound track the sequence numbers rise by one from packet to
/// packet, within a frame and from the last packet of a frame to the first
/// of the next, and all packets of a frame carry the frame's timestamp.
pub proof fn lemma_packets_follow(
    frame: Seq<u8>,
    chunk: int,
    payload_type: u8,
    ssrc: u32,
    first_seq: u16,
    timestamp: u32,
)
    requires
        0 < chunk,
    ensures
        ({
            let ps = vp9_packets(frame, chunk, payload_type, ssrc, first_seq, timestamp);
            &&& forall|i: int| 0 <= i < ps.len() ==> (#[trigger] ps[i]).timestamp == timestamp
            &&& forall|i: int|
                0 <= i < ps.len() - 1 ==> seq_follows(
                    (#[trigger] ps[i]).sequence_number,
                    ps[i + 1].sequence_number,
                )
            &&& ps.len() >= 1 ==> seq_follows(
                ps[ps.len() - 1].sequence_number,
                seq_after(first_seq, ps.len() as int),
            )
        }),
{
    let ps = vp9_packets(frame, chunk, payload_type, ssrc, first_seq, timestamp);
    assert forall|i: int| 0 <= i < ps.len() implies seq_follows(
        (#[trigger] ps[i]).sequence_number,
        seq_after(first_seq, i + 1),
    ) by {
        lemma_seq_after_step(first_seq, i);
        lemma_seq_distance_after(seq_after(first_seq, i), 1);
    }
    assert forall|i: int| 0 <= i < ps.len() - 1 implies seq_follows(
        (#[trigger] ps[i]).sequence_number,
        ps[i + 1].sequence_number,
    ) by {
        assert(seq_follows(ps[i].sequence_number, seq_after(first_seq, i + 1)));
    }
    if ps.len() >= 1 {
        assert(seq_follows(ps[ps.len() - 1].sequence_number, seq_after(first_seq, ps.len() - 1 + 1)));
    }
}

} // verus!
