//! Bandwidth estimation: per-session estimates with a rolling history and a
//! trend, and priority-weighted distribution over a session's tracks.
use vstd::prelude::*;
use std::collections::HashMap;
use crate::feedback::{BandwidthEstimation, BandwidthTrend, SessionId, TrackId};

verus! {

broadcast use vstd::std_specs::hash::group_hash_axioms;

/// The most samples a history holds; the oldest sample leaves when one more
/// arrives.
pub const MAX_HISTORY: usize = 4096;

/// Length of the rolling window that a new manager starts with, in
/// milliseconds.
pub const DEFAULT_WINDOW_MS: u32 = 10_000;

/// Number of samples below which a new manager calls the trend stable.
pub const DEFAULT_MIN_SAMPLES: usize = 5;

/// Bitrate recommended for a track of a session without any estimate.
pub const DEFAULT_BITRATE: u32 = 500_000;

/// What the manager knows of one session: the two estimates, the time of
/// the last update, the samples of the rolling window as (time in
/// milliseconds, bits per second), and the trend derived from them.
pub struct BandwidthInfo {
    pub upload_bandwidth: u32,
    pub download_bandwidth: u32,
    pub last_update_ms: u64,
    pub history: Vec<(u64, u32)>,
    pub trend: BandwidthTrend,
}

/// The mathematical value of a `BandwidthInfo`.
pub ghost struct InfoView {
    pub upload_bandwidth: u32,
    pub download_bandwidth: u32,
    pub last_update_ms: u64,
    pub history: Seq<(u64, u32)>,
    pub trend: BandwidthTrend,
}

impl View for BandwidthInfo {
    type V = InfoView;

    open spec fn view(&self) -> InfoView {
        InfoView {
            upload_bandwidth: self.upload_bandwidth,
            download_bandwidth: self.download_bandwidth,
            last_update_ms: self.last_update_ms,
            history: self.history@,
            trend: self.trend,
        }
    }
}

/// Sum of the sample times, counted in milliseconds from the first sample,
/// over the first `n` samples.
pub open spec fn sum_x(h: Seq<(u64, u32)>, n: int) -> int
    decreases n,
{
    if n <= 0 {
        0
    } else {
        sum_x(h, n - 1) + (h[n - 1].0 - h[0].0)
    }
}

/// Sum of the sampled rates over the first `n` samples.
pub open spec fn sum_y(h: Seq<(u64, u32)>, n: int) -> int
    decreases n,
{
    if n <= 0 {
        0
    } else {
        sum_y(h, n - 1) + h[n - 1].1
    }
}

/// Sum of time times rate over the first `n` samples.
pub open spec fn sum_xy(h: Seq<(u64, u32)>, n: int) -> int
    decreases n,
{
    if n <= 0 {
        0
    } else {
        sum_xy(h, n - 1) + (h[n - 1].0 - h[0].0) * h[n - 1].1
    }
}

/// Sum of the squared times over the first `n` samples.
pub open spec fn sum_xx(h: Seq<(u64, u32)>, n: int) -> int
    decreases n,
{
    if n <= 0 {
        0
    } else {
        sum_xx(h, n - 1) + (h[n - 1].0 - h[0].0) * (h[n - 1].0 - h[0].0)
    }
}

/// Numerator of the least-squares slope of rate over time.
pub open spec fn slope_numerator(h: Seq<(u64, u32)>) -> int {
    let n = h.len() as int;
    n * sum_xy(h, n) - sum_x(h, n) * sum_y(h, n)
}

/// Denominator of the least-squares slope of rate over time.
pub open spec fn slope_denominator(h: Seq<(u64, u32)>) -> int {
    let n = h.len() as int;
    n * sum_xx(h, n) - sum_x(h, n) * sum_x(h, n)
}

/// The trend of a history. With fewer than `min_samples` samples, or none,
/// it is stable. Otherwise the least-squares slope decides: with times in
/// milliseconds, a slope of numerator over denominator is above 1000 bits
/// per second per second when the numerator is above the denominator, and
/// below -1000 when it is below the negated denominator. A history whose
/// samples share one time has no slope and is stable.
pub open spec fn trend_of(h: Seq<(u64, u32)>, min_samples: usize) -> BandwidthTrend {
    if h.len() < min_samples || h.len() == 0 {
        BandwidthTrend::Stable
    } else if slope_denominator(h) > 0 && slope_numerator(h) > slope_denominator(h) {
        BandwidthTrend::Increasing
    } else if slope_denominator(h) > 0 && slope_numerator(h) < -slope_denominator(h) {
        BandwidthTrend::Decreasing
    } else {
        BandwidthTrend::Stable
    }
}

/// A history in time order that spans less than 2^32 milliseconds and holds
/// at most `MAX_HISTORY` samples.
pub open spec fn history_bounded(h: Seq<(u64, u32)>) -> bool {
    &&& h.len() <= MAX_HISTORY
    &&& forall|i: int, j: int| 0 <= i <= j < h.len() ==> h[i].0 <= h[j].0
    &&& forall|i: int| 0 <= i < h.len() ==> #[trigger] h[i].0 - h[0].0 <= u32::MAX
}

proof fn lemma_sum_bounds(h: Seq<(u64, u32)>, n: int)
    requires
        history_bounded(h),
        0 <= n <= h.len(),
    ensures
        0 <= sum_x(h, n) <= n * 0xFFFF_FFFF,
        0 <= sum_y(h, n) <= n * 0xFFFF_FFFF,
        0 <= sum_xy(h, n) <= n * 0xFFFF_FFFE_0000_0001,
        0 <= sum_xx(h, n) <= n * 0xFFFF_FFFE_0000_0001,
    decreases n,
{
    if n > 0 {
        lemma_sum_bounds(h, n - 1);
        let x = h[n - 1].0 - h[0].0;
        let y = h[n - 1].1 as int;
        assert(0 <= x <= 0xFFFF_FFFF);
        assert(0 <= x * y <= 0xFFFF_FFFE_0000_0001) by (nonlinear_arith)
            requires
                0 <= x <= 0xFFFF_FFFF,
                0 <= y <= 0xFFFF_FFFF,
        ;
        assert(0 <= x * x <= 0xFFFF_FFFE_0000_0001) by (nonlinear_arith)
            requires
                0 <= x <= 0xFFFF_FFFF,
        ;
    }
}

/// The trend of a bounded history.
pub fn calculate_trend(history: &Vec<(u64, u32)>, min_samples: usize) -> (t: BandwidthTrend)
    requires
        history_bounded(history@),
    ensures
        t == trend_of(history@, min_samples),
{
    let len = history.len();
    if len < min_samples || len == 0 {
        return BandwidthTrend::Stable;
    }
    let base = history[0].0;
    let mut sx: i128 = 0;
    let mut sy: i128 = 0;
    let mut sxy: i128 = 0;
    let mut sxx: i128 = 0;
    let mut i: usize = 0;
    while i < len
        invariant
            i <= len == history@.len(),
            history_bounded(history@),
            base == history@[0].0,
            sx == sum_x(history@, i as int),
            sy == sum_y(history@, i as int),
            sxy == sum_xy(history@, i as int),
            sxx == sum_xx(history@, i as int),
        decreases len - i,
    {
        proof {
            lemma_sum_bounds(history@, i as int);
            lemma_sum_bounds(history@, i + 1);
            assert(i * 0xFFFF_FFFE_0000_0001 <= 4096 * 0xFFFF_FFFE_0000_0001) by (nonlinear_arith)
                requires
                    i <= 4096,
            ;
            assert((i + 1) * 0xFFFF_FFFE_0000_0001 <= 4096 * 0xFFFF_FFFE_0000_0001)
                by (nonlinear_arith)
                requires
                    i + 1 <= 4096,
            ;
            assert(history@[i as int].0 - history@[0].0 <= u32::MAX);
        }
        let x: i128 = (history[i].0 - base) as i128;
        let y: i128 = history[i].1 as i128;
        assert(0 <= x * y <= 0xFFFF_FFFE_0000_0001) by (nonlinear_arith)
            requires
                0 <= x <= 0xFFFF_FFFF,
                0 <= y <= 0xFFFF_FFFF,
        ;
        assert(0 <= x * x <= 0xFFFF_FFFE_0000_0001) by (nonlinear_arith)
            requires
                0 <= x <= 0xFFFF_FFFF,
        ;
        sx = sx + x;
        sy = sy + y;
        sxy = sxy + x * y;
        sxx = sxx + x * x;
        i = i + 1;
    }
    proof {
        lemma_sum_bounds(history@, len as int);
        let n = len as int;
        assert(n * 0xFFFF_FFFF <= 4096 * 0xFFFF_FFFF);
        assert(n * sum_xy(history@, n) <= 0xfffffffe00000001000000
            && n * sum_xy(history@, n) >= 0) by (nonlinear_arith)
            requires
                0 <= n <= 4096,
                0 <= sum_xy(history@, n) <= n * 0xFFFF_FFFE_0000_0001,
        ;
        assert(n * sum_xx(history@, n) <= 0xfffffffe00000001000000
            && n * sum_xx(history@, n) >= 0) by (nonlinear_arith)
            requires
                0 <= n <= 4096,
                0 <= sum_xx(history@, n) <= n * 0xFFFF_FFFE_0000_0001,
        ;
        assert(sum_x(history@, n) * sum_y(history@, n) <= 0xfffffffe00000001000000 && sum_x(history@, n) * sum_y(history@, n) >= 0) by (nonlinear_arith)
            requires
                0 <= n <= 4096,
                0 <= sum_x(history@, n) <= 4096 * 0xFFFF_FFFF,
                0 <= sum_y(history@, n) <= 4096 * 0xFFFF_FFFF,
        ;
        assert(sum_x(history@, n) * sum_x(history@, n) <= 0xfffffffe00000001000000 && sum_x(history@, n) * sum_x(history@, n) >= 0) by (nonlinear_arith)
            requires
                0 <= sum_x(history@, n) <= 4096 * 0xFFFF_FFFF,
        ;
    }
    let n: i128 = len as i128;
    assert(n * sxy == (len as int) * sum_xy(history@, len as int));
    assert(sx * sy == sum_x(history@, len as int) * sum_y(history@, len as int));
    let numerator: i128 = n * sxy - sx * sy;
    let denominator: i128 = n * sxx - sx * sx;
    if denominator > 0 && numerator > denominator {
        BandwidthTrend::Increasing
    } else if denominator > 0 && numerator < -denominator {
        BandwidthTrend::Decreasing
    } else {
        BandwidthTrend::Stable
    }
}

/// Whether a sample taken at `t` is within the window that ends at `now`.
pub open spec fn fresh(t: u64, now: u64, window_ms: u32) -> bool {
    now - t <= window_ms
}

/// The number of samples at the front of a history that are older than the
/// window.
pub open spec fn stale_prefix(h: Seq<(u64, u32)>, now: u64, window_ms: u32) -> int
    decreases h.len(),
{
    if h.len() == 0 || fresh(h[0].0, now, window_ms) {
        0
    } else {
        1 + stale_prefix(h.skip(1), now, window_ms)
    }
}

/// A history without the samples older than the window, and without its
/// oldest sample if it would else hold more than `MAX_HISTORY`.
pub open spec fn pruned(h: Seq<(u64, u32)>, now: u64, window_ms: u32) -> Seq<(u64, u32)> {
    let kept = h.skip(stale_prefix(h, now, window_ms));
    if kept.len() > MAX_HISTORY {
        kept.skip(1)
    } else {
        kept
    }
}

/// In a history in time order the stale samples are exactly those of the
/// stale prefix: pruning keeps every fresh sample and no other.
pub proof fn lemma_stale_prefix(h: Seq<(u64, u32)>, now: u64, window_ms: u32)
    requires
        forall|i: int, j: int| 0 <= i <= j < h.len() ==> h[i].0 <= h[j].0,
    ensures
        0 <= stale_prefix(h, now, window_ms) <= h.len(),
        forall|i: int|
            0 <= i < h.len() ==> (fresh(#[trigger] h[i].0, now, window_ms) <==> i >= stale_prefix(
                h,
                now,
                window_ms,
            )),
    decreases h.len(),
{
    if h.len() != 0 && !fresh(h[0].0, now, window_ms) {
        let rest = h.skip(1);
        assert forall|i: int, j: int| 0 <= i <= j < rest.len() implies rest[i].0 <= rest[j].0 by {
            assert(rest[i] == h[i + 1] && rest[j] == h[j + 1]);
        }
        lemma_stale_prefix(rest, now, window_ms);
        assert forall|i: int| 0 <= i < h.len() implies (fresh(#[trigger] h[i].0, now, window_ms)
            <==> i >= stale_prefix(h, now, window_ms)) by {
            if i > 0 {
                assert(rest[i - 1] == h[i]);
            }
        }
    } else if h.len() != 0 {
        assert forall|i: int| 0 <= i < h.len() implies fresh(#[trigger] h[i].0, now, window_ms) by {
            assert(h[0].0 <= h[i].0);
        }
    }
}

/// What a session's record is before its first update.
pub open spec fn fresh_info(now_ms: u64) -> InfoView {
    InfoView {
        upload_bandwidth: 0,
        download_bandwidth: 0,
        last_update_ms: now_ms,
        history: Seq::empty(),
        trend: BandwidthTrend::Stable,
    }
}

/// A session's record after an estimate of `bps` at `now_ms`. The clock
/// does not run backwards: a reading before the last update counts as the
/// time of the last update. The estimate of the given direction is set, the
/// sample joins the history, the history is pruned to the window, and the
/// trend is derived from what is left.
pub open spec fn updated_info(
    before: InfoView,
    bps: u32,
    is_upload: bool,
    now_ms: u64,
    window_ms: u32,
    min_samples: usize,
) -> InfoView {
    let now = if now_ms < before.last_update_ms { before.last_update_ms } else { now_ms };
    let history = pruned(before.history.push((now, bps)), now, window_ms);
    InfoView {
        upload_bandwidth: if is_upload { bps } else { before.upload_bandwidth },
        download_bandwidth: if is_upload { before.download_bandwidth } else { bps },
        last_update_ms: now,
        history,
        trend: trend_of(history, min_samples),
    }
}

/// A record whose history is in time order, ends no later than the last
/// update, lies within the window, and holds at most `MAX_HISTORY` samples.
pub open spec fn info_valid(info: InfoView, window_ms: u32) -> bool {
    &&& info.history.len() <= MAX_HISTORY
    &&& forall|i: int, j: int|
        0 <= i <= j < info.history.len() ==> info.history[i].0 <= info.history[j].0
    &&& forall|i: int|
        0 <= i < info.history.len() ==> #[trigger] info.history[i].0 <= info.last_update_ms
            && info.last_update_ms - info.history[i].0 <= window_ms
}

/// Seventy percent of a rate, rounded down.
pub open spec fn seventy_percent(bps: u32) -> u32 {
    (bps as int * 7 / 10) as u32
}

/// The share of `available` that goes to a track of the given priority when
/// the priorities of all tracks add up to `total`, rounded down; nothing if
/// the total is zero.
pub open spec fn share(available: u32, priority: u8, total: int) -> u32 {
    if total <= 0 {
        0
    } else {
        (available as int * priority as int / total) as u32
    }
}

/// Sum of the priorities of the first `n` tracks.
pub open spec fn priority_sum(priorities: Seq<(TrackId, u8)>, n: int) -> int
    decreases n,
{
    if n <= 0 {
        0
    } else {
        priority_sum(priorities, n - 1) + priorities[n - 1].1
    }
}

/// The allocations after the first `n` tracks of a distribution were
/// stored; a track named twice keeps its later share.
pub open spec fn stored_shares(
    m: Map<(SessionId, TrackId), u32>,
    session_id: SessionId,
    available: u32,
    priorities: Seq<(TrackId, u8)>,
    n: int,
) -> Map<(SessionId, TrackId), u32>
    decreases n,
{
    if n <= 0 {
        m
    } else {
        stored_shares(m, session_id, available, priorities, n - 1).insert(
            (session_id, priorities[n - 1].0),
            share(available, priorities[n - 1].1, priority_sum(priorities, priorities.len() as int)),
        )
    }
}

proof fn lemma_priority_sum_bounds(priorities: Seq<(TrackId, u8)>, n: int)
    requires
        0 <= n <= priorities.len(),
    ensures
        0 <= priority_sum(priorities, n) <= 255 * n,
    decreases n,
{
    if n > 0 {
        lemma_priority_sum_bounds(priorities, n - 1);
    }
}

proof fn lemma_priority_sum(priorities: Seq<(TrackId, u8)>, n: int, k: int)
    requires
        0 <= k < n <= priorities.len(),
    ensures
        priorities[k].1 <= priority_sum(priorities, n) <= 255 * n,
    decreases n,
{
    lemma_priority_sum_bounds(priorities, n);
    lemma_priority_sum_bounds(priorities, n - 1);
    if k < n - 1 {
        lemma_priority_sum(priorities, n - 1, k);
    }
}

fn prune_history(history: &mut Vec<(u64, u32)>, now: u64, window_ms: u32)
    requires
        forall|i: int| 0 <= i < old(history)@.len() ==> (#[trigger] old(history)@[i]).0 <= now,
    ensures
        final(history)@ == pruned(old(history)@, now, window_ms),
{
    let len = history.len();
    let mut k: usize = 0;
    assert(history@.skip(0) =~= history@);
    while k < len && now - history[k].0 > window_ms as u64
        invariant
            k <= len == history@.len(),
            history@ == old(history)@,
            forall|i: int| 0 <= i < history@.len() ==> (#[trigger] history@[i]).0 <= now,
            stale_prefix(history@, now, window_ms) == k + stale_prefix(
                history@.skip(k as int),
                now,
                window_ms,
            ),
        decreases len - k,
    {
        assert(history@.skip(k as int).skip(1) =~= history@.skip(k + 1));
        assert(history@.skip(k as int)[0] == history@[k as int]);
        k = k + 1;
    }
    proof {
        if k < len {
            assert(history@.skip(k as int)[0] == history@[k as int]);
        }
        assert(stale_prefix(history@, now, window_ms) == k);
    }
    let mut kept: Vec<(u64, u32)> = Vec::new();
    let mut j: usize = k;
    while j < len
        invariant
            k <= j <= len == history@.len(),
            kept@ == history@.subrange(k as int, j as int),
        decreases len - j,
    {
        kept.push(history[j]);
        j = j + 1;
        assert(kept@ =~= history@.subrange(k as int, j as int));
    }
    assert(kept@ =~= history@.skip(k as int));
    if kept.len() > MAX_HISTORY {
        kept.remove(0);
        assert(kept@ =~= history@.skip(k as int).skip(1));
    }
    *history = kept;
}

proof fn lemma_updated_valid(
    before: InfoView,
    bps: u32,
    is_upload: bool,
    now_ms: u64,
    window_ms: u32,
    min_samples: usize,
)
    requires
        info_valid(before, window_ms),
    ensures
        info_valid(updated_info(before, bps, is_upload, now_ms, window_ms, min_samples), window_ms),
        history_bounded(
            updated_info(before, bps, is_upload, now_ms, window_ms, min_samples).history,
        ),
{
    let now = if now_ms < before.last_update_ms { before.last_update_ms } else { now_ms };
    let pushed = before.history.push((now, bps));
    assert forall|i: int, j: int| 0 <= i <= j < pushed.len() implies pushed[i].0 <= pushed[j].0 by {
        if i < before.history.len() {
            assert(before.history[i].0 <= before.last_update_ms);
        }
    }
    lemma_stale_prefix(pushed, now, window_ms);
    let k = stale_prefix(pushed, now, window_ms);
    assert(fresh(pushed[pushed.len() - 1].0, now, window_ms));
    let out = pruned(pushed, now, window_ms);
    let off = if pushed.skip(k).len() > MAX_HISTORY { k + 1 } else { k };
    assert(out =~= pushed.skip(off));
    assert forall|i: int| 0 <= i < out.len() implies #[trigger] out[i].0 <= now && now - out[i].0
        <= window_ms by {
        assert(out[i] == pushed[i + off]);
        assert(fresh(pushed[i + off].0, now, window_ms));
        if i + off < before.history.len() {
            assert(before.history[i + off].0 <= before.last_update_ms);
        }
    }
    assert forall|i: int, j: int| 0 <= i <= j < out.len() implies out[i].0 <= out[j].0 by {
        assert(out[i] == pushed[i + off] && out[j] == pushed[j + off]);
    }
    assert forall|i: int| 0 <= i < out.len() implies #[trigger] out[i].0 - out[0].0
        <= u32::MAX by {
        assert(out[0].0 <= now && now - out[0].0 <= window_ms);
        assert(out[i].0 <= now);
    }
}

/// The allocations held as one map per session, with the map of one session
/// taken out and given on the side.
pub open spec fn joined(
    outer: Map<SessionId, HashMap<TrackId, u32>>,
    session_id: SessionId,
    inner: Map<TrackId, u32>,
) -> Map<(SessionId, TrackId), u32> {
    Map::new(
        |k: (SessionId, TrackId)|
            if k.0 == session_id {
                inner.contains_key(k.1)
            } else {
                outer.contains_key(k.0) && outer[k.0]@.contains_key(k.1)
            },
        |k: (SessionId, TrackId)|
            if k.0 == session_id {
                inner[k.1]
            } else {
                outer[k.0]@[k.1]
            },
    )
}

/// The bandwidth manager: estimates per session, allocations per track.
pub struct DefaultBandwidthManager {
    session_bandwidth: HashMap<SessionId, BandwidthInfo>,
    track_bitrates: HashMap<SessionId, HashMap<TrackId, u32>>,
    history_window_ms: u32,
    min_samples_for_trend: usize,
}

impl DefaultBandwidthManager {
    /// The record of each session that has one.
    pub closed spec fn sessions(&self) -> Map<SessionId, InfoView> {
        Map::new(
            |s: SessionId| self.session_bandwidth@.contains_key(s),
            |s: SessionId| self.session_bandwidth@[s]@,
        )
    }

    /// The bitrate allocated to each (session, track) that has one.
    pub closed spec fn allocations(&self) -> Map<(SessionId, TrackId), u32> {
        Map::new(
            |k: (SessionId, TrackId)|
                self.track_bitrates@.contains_key(k.0) && self.track_bitrates@[k.0]@.contains_key(
                    k.1,
                ),
            |k: (SessionId, TrackId)| self.track_bitrates@[k.0]@[k.1],
        )
    }

    /// Length of the rolling window, in milliseconds.
    pub closed spec fn window_ms(&self) -> u32 {
        self.history_window_ms
    }

    /// Number of samples below which the trend is stable.
    pub closed spec fn min_samples(&self) -> usize {
        self.min_samples_for_trend
    }

    /// Every record is valid for the window.
    pub open spec fn wf(&self) -> bool {
        forall|s: SessionId| #[trigger]
            self.sessions().contains_key(s) ==> info_valid(self.sessions()[s], self.window_ms())
    }

    /// A manager with a window of ten seconds and five samples for a trend.
    pub fn new() -> (m: DefaultBandwidthManager)
        ensures
            m.wf(),
            m.sessions() == Map::<SessionId, InfoView>::empty(),
            m.allocations() == Map::<(SessionId, TrackId), u32>::empty(),
            m.window_ms() == DEFAULT_WINDOW_MS,
            m.min_samples() == DEFAULT_MIN_SAMPLES,
    {
        let m = DefaultBandwidthManager {
            session_bandwidth: HashMap::new(),
            track_bitrates: HashMap::new(),
            history_window_ms: DEFAULT_WINDOW_MS,
            min_samples_for_trend: DEFAULT_MIN_SAMPLES,
        };
        assert(m.sessions() =~= Map::<SessionId, InfoView>::empty());
        assert(m.allocations() =~= Map::<(SessionId, TrackId), u32>::empty());
        m
    }

    /// Records an estimate of `bandwidth` for a session at `now_ms`, in the
    /// upload or the download direction. A session without a record gets
    /// one.
    pub fn update_bandwidth(
        &mut self,
        session_id: SessionId,
        bandwidth: u32,
        is_upload: bool,
        now_ms: u64,
    )
        requires
            old(self).wf(),
        ensures
            final(self).wf(),
            final(self).window_ms() == old(self).window_ms(),
            final(self).min_samples() == old(self).min_samples(),
            final(self).allocations() == old(self).allocations(),
            final(self).sessions() == old(self).sessions().insert(
                session_id,
                updated_info(
                    if old(self).sessions().contains_key(session_id) {
                        old(self).sessions()[session_id]
                    } else {
                        fresh_info(now_ms)
                    },
                    bandwidth,
                    is_upload,
                    now_ms,
                    old(self).window_ms(),
                    old(self).min_samples(),
                ),
            ),
    {
        let mut info = match self.session_bandwidth.remove(&session_id) {
            Some(info) => info,
            None => BandwidthInfo {
                upload_bandwidth: 0,
                download_bandwidth: 0,
                last_update_ms: now_ms,
                history: Vec::new(),
                trend: BandwidthTrend::Stable,
            },
        };
        let ghost before = info@;
        proof {
            if old(self).sessions().contains_key(session_id) {
                assert(before == old(self).sessions()[session_id]);
            } else {
                assert(before == fresh_info(now_ms));
            }
            assert(info_valid(before, self.history_window_ms));
            lemma_updated_valid(
                before,
                bandwidth,
                is_upload,
                now_ms,
                self.history_window_ms,
                self.min_samples_for_trend,
            );
        }
        let now = if now_ms < info.last_update_ms { info.last_update_ms } else { now_ms };
        if is_upload {
            info.upload_bandwidth = bandwidth;
        } else {
            info.download_bandwidth = bandwidth;
        }
        info.history.push((now, bandwidth));
        prune_history(&mut info.history, now, self.history_window_ms);
        info.trend = calculate_trend(&info.history, self.min_samples_for_trend);
        info.last_update_ms = now;
        let ghost after = info@;
        self.session_bandwidth.insert(session_id, info);
        proof {
            assert(self.sessions() =~= old(self).sessions().insert(session_id, after));
            assert(self.allocations() =~= old(self).allocations());
            assert forall|s: SessionId| #[trigger] self.sessions().contains_key(s) implies info_valid(
                self.sessions()[s],
                self.window_ms(),
            ) by {
                if s != session_id {
                    assert(old(self).sessions().contains_key(s));
                }
            }
        }
    }

    /// Records a bandwidth estimate that a session reported. The estimate is
    /// stored as the session's download estimate.
    pub fn process_bandwidth_estimation(&mut self, estimation: BandwidthEstimation, now_ms: u64)
        requires
            old(self).wf(),
        ensures
            final(self).wf(),
            final(self).window_ms() == old(self).window_ms(),
            final(self).min_samples() == old(self).min_samples(),
            final(self).allocations() == old(self).allocations(),
            final(self).sessions() == old(self).sessions().insert(
                estimation.session_id,
                updated_info(
                    if old(self).sessions().contains_key(estimation.session_id) {
                        old(self).sessions()[estimation.session_id]
                    } else {
                        fresh_info(now_ms)
                    },
                    estimation.available_bandwidth,
                    false,
                    now_ms,
                    old(self).window_ms(),
                    old(self).min_samples(),
                ),
            ),
    {
        self.update_bandwidth(estimation.session_id, estimation.available_bandwidth, false, now_ms);
    }

    /// Forgets a session: its record and the allocations of its tracks.
    pub fn forget_session(&mut self, session_id: SessionId)
        requires
            old(self).wf(),
        ensures
            final(self).wf(),
            final(self).window_ms() == old(self).window_ms(),
            final(self).min_samples() == old(self).min_samples(),
            final(self).sessions() == old(self).sessions().remove(session_id),
            final(self).allocations() == Map::new(
                |k: (SessionId, TrackId)| old(self).allocations().contains_key(k) && k.0 != session_id,
                |k: (SessionId, TrackId)| old(self).allocations()[k],
            ),
    {
        self.session_bandwidth.remove(&session_id);
        self.track_bitrates.remove(&session_id);
        proof {
            assert(self.sessions() =~= old(self).sessions().remove(session_id));
            assert(self.allocations() =~= Map::new(
                |k: (SessionId, TrackId)| old(self).allocations().contains_key(k) && k.0 != session_id,
                |k: (SessionId, TrackId)| old(self).allocations()[k],
            ));
            assert forall|s: SessionId| #[trigger] self.sessions().contains_key(s) implies info_valid(
                self.sessions()[s],
                self.window_ms(),
            ) by {
                assert(old(self).sessions().contains_key(s));
            }
        }
    }

    /// The trend of a session, if it has a record.
    pub fn get_bandwidth_trend(&self, session_id: SessionId) -> (r: Option<BandwidthTrend>)
        ensures
            r == (if self.sessions().contains_key(session_id) {
                Some(self.sessions()[session_id].trend)
            } else {
                None
            }),
    {
        match self.session_bandwidth.get(&session_id) {
            Some(info) => Some(info.trend),
            None => None,
        }
    }

    /// The bitrate recommended for a track: its allocation if it has one,
    /// else seventy percent of the session's upload estimate if the session
    /// has a record, else the default.
    pub fn get_recommended_bitrate(&self, session_id: SessionId, track_id: TrackId) -> (r: u32)
        ensures
            r == (if self.allocations().contains_key((session_id, track_id)) {
                self.allocations()[(session_id, track_id)]
            } else if self.sessions().contains_key(session_id) {
                seventy_percent(self.sessions()[session_id].upload_bandwidth)
            } else {
                DEFAULT_BITRATE
            }),
    {
        if let Some(inner) = self.track_bitrates.get(&session_id) {
            if let Some(bitrate) = inner.get(&track_id) {
                return *bitrate;
            }
        }
        match self.session_bandwidth.get(&session_id) {
            Some(info) => ((info.upload_bandwidth as u64) * 7 / 10) as u32,
            None => DEFAULT_BITRATE,
        }
    }

    /// Divides `available` among the tracks of a session in proportion to
    /// their priorities, stores each share as the track's allocation, and
    /// returns the shares in the order given.
    pub fn distribute_bandwidth(
        &mut self,
        session_id: SessionId,
        available_bandwidth: u32,
        track_priorities: &Vec<(TrackId, u8)>,
    ) -> (out: Vec<(TrackId, u32)>)
        requires
            old(self).wf(),
        ensures
            final(self).wf(),
            final(self).window_ms() == old(self).window_ms(),
            final(self).min_samples() == old(self).min_samples(),
            final(self).sessions() == old(self).sessions(),
            out@.len() == track_priorities@.len(),
            forall|i: int|
                0 <= i < out@.len() ==> #[trigger] out@[i] == (
                    track_priorities@[i].0,
                    share(
                        available_bandwidth,
                        track_priorities@[i].1,
                        priority_sum(track_priorities@, track_priorities@.len() as int),
                    ),
                ),
            final(self).allocations() == stored_shares(
                old(self).allocations(),
                session_id,
                available_bandwidth,
                track_priorities@,
                track_priorities@.len() as int,
            ),
    {
        let n = track_priorities.len();
        let mut total: u128 = 0;
        let mut i: usize = 0;
        while i < n
            invariant
                i <= n == track_priorities@.len(),
                total == priority_sum(track_priorities@, i as int),
                total <= 255 * i,
            decreases n - i,
        {
            total = total + track_priorities[i].1 as u128;
            i = i + 1;
        }
        let mut inner = match self.track_bitrates.remove(&session_id) {
            Some(inner) => inner,
            None => HashMap::new(),
        };
        assert(joined(self.track_bitrates@, session_id, inner@) =~= old(self).allocations());
        let mut out: Vec<(TrackId, u32)> = Vec::new();
        let mut j: usize = 0;
        while j < n
            invariant
                j <= n == track_priorities@.len(),
                total == priority_sum(track_priorities@, n as int),
                out@.len() == j,
                forall|k: int|
                    0 <= k < j ==> #[trigger] out@[k] == (
                        track_priorities@[k].0,
                        share(available_bandwidth, track_priorities@[k].1, total as int),
                    ),
                joined(self.track_bitrates@, session_id, inner@) == stored_shares(
                    old(self).allocations(),
                    session_id,
                    available_bandwidth,
                    track_priorities@,
                    j as int,
                ),
                !self.track_bitrates@.contains_key(session_id),
                self.session_bandwidth == old(self).session_bandwidth,
                self.history_window_ms == old(self).history_window_ms,
                self.min_samples_for_trend == old(self).min_samples_for_trend,
            decreases n - j,
        {
            let (track_id, priority) = track_priorities[j];
            proof {
                lemma_priority_sum(track_priorities@, n as int, j as int);
            }
            let allocation: u32 = if total == 0 {
                0
            } else {
                assert((available_bandwidth as int) * (priority as int) <= 0xFFFF_FFFF * 255)
                    by (nonlinear_arith)
                    requires
                        0 <= available_bandwidth <= 0xFFFF_FFFF,
                        0 <= priority <= 255,
                ;
                let product: u128 = (available_bandwidth as u128) * (priority as u128);
                assert(product / total <= available_bandwidth) by (nonlinear_arith)
                    requires
                        product == available_bandwidth as int * priority as int,
                        0 < total,
                        priority <= total,
                        0 <= available_bandwidth,
                        0 <= priority,
                ;
                (product / total) as u32
            };
            let ghost prev = inner@;
            inner.insert(track_id, allocation);
            out.push((track_id, allocation));
            assert(joined(self.track_bitrates@, session_id, inner@) =~= joined(
                self.track_bitrates@,
                session_id,
                prev,
            ).insert((session_id, track_id), allocation));
            j = j + 1;
        }
        let ghost held = inner@;
        let ghost outer = self.track_bitrates@;
        self.track_bitrates.insert(session_id, inner);
        assert(self.allocations() =~= joined(outer, session_id, held));
        assert(self.sessions() =~= old(self).sessions());
        out
    }
}

impl Default for DefaultBandwidthManager {
    fn default() -> (m: DefaultBandwidthManager)
        ensures
            m.wf(),
            m.sessions() == Map::<SessionId, InfoView>::empty(),
            m.allocations() == Map::<(SessionId, TrackId), u32>::empty(),
            m.window_ms() == DEFAULT_WINDOW_MS,
            m.min_samples() == DEFAULT_MIN_SAMPLES,
    {
        DefaultBandwidthManager::new()
    }
}

/// What a bandwidth manager offers.
pub trait BandwidthManager {
    /// The manager's own consistency.
    spec fn valid(&self) -> bool;

    /// The upload estimate of a session, if the session has a record.
    spec fn upload(&self, session_id: SessionId) -> Option<u32>;

    /// The download estimate of a session, if the session has a record.
    spec fn download(&self, session_id: SessionId) -> Option<u32>;

    /// The bitrate allocated to a track of a session, if it has one.
    spec fn allocation(&self, session_id: SessionId, track_id: TrackId) -> Option<u32>;

    /// The bitrate recommended for a track of a session.
    spec fn recommended(&self, session_id: SessionId, track_id: TrackId) -> u32;

    /// The trend of a session, if it has one.
    spec fn trend(&self, session_id: SessionId) -> Option<BandwidthTrend>;

    /// Records an estimate for a session: the estimate of the given
    /// direction becomes `bandwidth`, the other one stays (zero for a session
    /// without a record), and the session has a trend from then on. Other
    /// sessions and all allocations stay as they are.
    fn update_bandwidth(&mut self, session_id: SessionId, bandwidth: u32, is_upload: bool, now_ms: u64)
        requires
            old(self).valid(),
        ensures
            final(self).valid(),
            final(self).upload(session_id) == Some(
                if is_upload {
                    bandwidth
                } else {
                    old(self).upload(session_id).unwrap_or(0)
                },
            ),
            final(self).download(session_id) == Some(
                if is_upload {
                    old(self).download(session_id).unwrap_or(0)
                } else {
                    bandwidth
                },
            ),
            final(self).trend(session_id).is_some(),
            forall|s: SessionId|
                s != session_id ==> #[trigger] final(self).upload(s) == old(self).upload(s),
            forall|s: SessionId|
                s != session_id ==> #[trigger] final(self).download(s) == old(self).download(s),
            forall|s: SessionId|
                s != session_id ==> #[trigger] final(self).trend(s) == old(self).trend(s),
            forall|s: SessionId, t: TrackId| #[trigger]
                final(self).allocation(s, t) == old(self).allocation(s, t),
            forall|s: SessionId, t: TrackId|
                s != session_id ==> #[trigger] final(self).recommended(s, t) == old(
                    self,
                ).recommended(s, t),
    ;

    /// The bitrate recommended for a track of a session.
    fn get_recommended_bitrate(&self, session_id: SessionId, track_id: TrackId) -> (r: u32)
        ensures
            r == self.recommended(session_id, track_id),
    ;

    /// The trend of a session, if it has one.
    fn get_bandwidth_trend(&self, session_id: SessionId) -> (r: Option<BandwidthTrend>)
        ensures
            r == self.trend(session_id),
    ;
}

impl BandwidthManager for DefaultBandwidthManager {
    open spec fn valid(&self) -> bool {
        self.wf()
    }

    open spec fn upload(&self, session_id: SessionId) -> Option<u32> {
        if self.sessions().contains_key(session_id) {
            Some(self.sessions()[session_id].upload_bandwidth)
        } else {
            None
        }
    }

    open spec fn download(&self, session_id: SessionId) -> Option<u32> {
        if self.sessions().contains_key(session_id) {
            Some(self.sessions()[session_id].download_bandwidth)
        } else {
            None
        }
    }

    open spec fn allocation(&self, session_id: SessionId, track_id: TrackId) -> Option<u32> {
        if self.allocations().contains_key((session_id, track_id)) {
            Some(self.allocations()[(session_id, track_id)])
        } else {
            None
        }
    }

    open spec fn recommended(&self, session_id: SessionId, track_id: TrackId) -> u32 {
        if self.allocations().contains_key((session_id, track_id)) {
            self.allocations()[(session_id, track_id)]
        } else if self.sessions().contains_key(session_id) {
            seventy_percent(self.sessions()[session_id].upload_bandwidth)
        } else {
            DEFAULT_BITRATE
        }
    }

    open spec fn trend(&self, session_id: SessionId) -> Option<BandwidthTrend> {
        if self.sessions().contains_key(session_id) {
            Some(self.sessions()[session_id].trend)
        } else {
            None
        }
    }

    fn update_bandwidth(&mut self, session_id: SessionId, bandwidth: u32, is_upload: bool, now_ms: u64)
        ensures
            final(self).window_ms() == old(self).window_ms(),
            final(self).min_samples() == old(self).min_samples(),
            final(self).allocations() == old(self).allocations(),
            final(self).sessions() == old(self).sessions().insert(
                session_id,
                updated_info(
                    if old(self).sessions().contains_key(session_id) {
                        old(self).sessions()[session_id]
                    } else {
                        fresh_info(now_ms)
                    },
                    bandwidth,
                    is_upload,
                    now_ms,
                    old(self).window_ms(),
                    old(self).min_samples(),
                ),
            ),
    {
        DefaultBandwidthManager::update_bandwidth(self, session_id, bandwidth, is_upload, now_ms)
    }

    fn get_recommended_bitrate(&self, session_id: SessionId, track_id: TrackId) -> (r: u32) {
        DefaultBandwidthManager::get_recommended_bitrate(self, session_id, track_id)
    }

    fn get_bandwidth_trend(&self, session_id: SessionId) -> (r: Option<BandwidthTrend>) {
        DefaultBandwidthManager::get_bandwidth_trend(self, session_id)
    }
}

} // verus!
