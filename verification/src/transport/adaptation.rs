//! Bitrate adaptation of one outbound track, with hysteresis.
use vstd::prelude::*;
use crate::error::{MediaFault, SfuError};
use crate::transport::integration::StreamDirection;
use crate::feedback::{BandwidthTrend, FeedbackMessage, SessionId, TrackId};
use crate::media::codec::CodecType;
use crate::simulcast::manager::{selected_state, DefaultSimulcastManager, TrackView};
use crate::simulcast::{is_selection, LayerId};

verus! {

/// How eagerly an adapter follows the estimate.
#[derive(Clone, Copy, Debug, PartialEq, Eq, Structural)]
pub enum AdaptationStrategy {
    /// Prefers stability.
    Conservative,
    /// Balanced.
    Moderate,
    /// Prefers quality.
    Aggressive,
}

/// The limits of an adapter: bitrate bounds and the quiet time after each
/// adaptation.
#[derive(Clone, Copy, Debug, PartialEq, Eq, Structural)]
pub struct AdaptationLimits {
    pub strategy: AdaptationStrategy,
    pub min_bitrate: u32,
    pub max_bitrate: u32,
    pub target_buffer_ms: u32,
    pub stability_period_ms: u32,
}

impl AdaptationLimits {
    /// Moderate strategy, 100 kbps to 5 Mbps, half a second of buffer, two
    /// seconds of quiet after each adaptation.
    pub fn standard() -> (l: AdaptationLimits)
        ensures
            l == (AdaptationLimits {
                strategy: AdaptationStrategy::Moderate,
                min_bitrate: 100_000,
                max_bitrate: 5_000_000,
                target_buffer_ms: 500,
                stability_period_ms: 2000,
            }),
    {
        AdaptationLimits {
            strategy: AdaptationStrategy::Moderate,
            min_bitrate: 100_000,
            max_bitrate: 5_000_000,
            target_buffer_ms: 500,
            stability_period_ms: 2000,
        }
    }
}

/// The three rates an adaptation compares. The caller scales them with its
/// factors: `target` is the available bandwidth times the headroom factor,
/// `raised` the current bitrate times the upscale factor, `lowered` the
/// current bitrate times the downscale factor.
#[derive(Clone, Copy, Debug, PartialEq, Eq, Structural)]
pub struct ScaledRates {
    pub target: u32,
    pub raised: u32,
    pub lowered: u32,
}

/// What an adapter knows between two estimates.
#[derive(Clone, Copy, Debug, PartialEq, Eq, Structural)]
pub struct AdapterState {
    pub current_bitrate: u32,
    pub available_bandwidth: u32,
    pub trend: BandwidthTrend,
    pub last_adaptation_ms: u64,
}

/// Milliseconds from `earlier` to `now`, zero if `now` is not later.
pub open spec fn elapsed_ms(now: u64, earlier: u64) -> int {
    if now >= earlier {
        now - earlier
    } else {
        0
    }
}

/// Whether the adapter is still in the quiet time after its last adaptation.
pub open spec fn in_stability_window(state: AdapterState, limits: AdaptationLimits, now_ms: u64) -> bool {
    elapsed_ms(now_ms, state.last_adaptation_ms) < limits.stability_period_ms
}

/// `rate` brought into the bounds; the upper bound wins if they cross.
pub open spec fn clamp_rate(rate: u32, limits: AdaptationLimits) -> u32 {
    let floored = if rate < limits.min_bitrate { limits.min_bitrate } else { rate };
    if floored > limits.max_bitrate { limits.max_bitrate } else { floored }
}

/// The bitrate an adaptation aims at, before the quiet time is considered:
/// up when the target is above the raised rate and the trend rises, down
/// when the target is below the lowered rate or the trend falls, else as it
/// is; then brought into the bounds.
pub open spec fn wanted_bitrate(state: AdapterState, limits: AdaptationLimits, rates: ScaledRates) -> u32 {
    let aimed = if rates.target > rates.raised && state.trend == BandwidthTrend::Increasing {
        rates.raised
    } else if rates.target < rates.lowered || state.trend == BandwidthTrend::Decreasing {
        rates.lowered
    } else {
        state.current_bitrate
    };
    clamp_rate(aimed, limits)
}

/// Whether an adaptation happens at `now_ms`: outside the quiet time, and
/// the wanted bitrate differs from the current one.
pub open spec fn adapts(state: AdapterState, limits: AdaptationLimits, now_ms: u64, rates: ScaledRates) -> bool {
    !in_stability_window(state, limits, now_ms) && wanted_bitrate(state, limits, rates)
        != state.current_bitrate
}

/// The state after an adaptation was considered at `now_ms`.
pub open spec fn adapted_state(
    state: AdapterState,
    limits: AdaptationLimits,
    now_ms: u64,
    rates: ScaledRates,
) -> AdapterState {
    if adapts(state, limits, now_ms, rates) {
        AdapterState {
            current_bitrate: wanted_bitrate(state, limits, rates),
            last_adaptation_ms: now_ms,
            ..state
        }
    } else {
        state
    }
}

/// After an adaptation at `t`, nothing adapts before `t` plus the quiet
/// time, whatever the estimates in between: the bitrate and the time of the
/// last adaptation stay as they are. The quiet time is not zero; with none,
/// every moment is open to an adaptation.
pub proof fn lemma_hysteresis(
    state: AdapterState,
    limits: AdaptationLimits,
    t: u64,
    rates: ScaledRates,
    available: u32,
    trend: BandwidthTrend,
    later: u64,
    later_rates: ScaledRates,
)
    requires
        adapts(state, limits, t, rates),
        limits.stability_period_ms > 0,
        later < t + limits.stability_period_ms,
    ensures
        ({
            let after = adapted_state(state, limits, t, rates);
            let informed = AdapterState { available_bandwidth: available, trend, ..after };
            &&& after.last_adaptation_ms == t
            &&& !adapts(informed, limits, later, later_rates)
            &&& adapted_state(informed, limits, later, later_rates) == informed
        }),
{
}

/// Adapter of one (subscriber, track) pair.
pub struct BandwidthAdapter {
    session_id: SessionId,
    track_id: TrackId,
    codec_type: CodecType,
    state: AdapterState,
    limits: AdaptationLimits,
    current_layer: Option<LayerId>,
}

impl BandwidthAdapter {
    /// The subscriber whose estimates are heard.
    pub closed spec fn session_id(&self) -> SessionId {
        self.session_id
    }

    /// The track that is adapted.
    pub closed spec fn track_id(&self) -> TrackId {
        self.track_id
    }

    /// The codec of the track.
    pub closed spec fn codec_type(&self) -> CodecType {
        self.codec_type
    }

    /// What the adapter knows at this moment.
    pub closed spec fn state(&self) -> AdapterState {
        self.state
    }

    /// The limits that the adapter keeps to.
    pub closed spec fn limits(&self) -> AdaptationLimits {
        self.limits
    }

    /// The layer chosen at the last adaptation, if any.
    pub closed spec fn layer(&self) -> Option<LayerId> {
        self.current_layer
    }

    /// An adapter that starts at `initial_bitrate`, with a stable trend, no
    /// layer, and its quiet time running from `now_ms`.
    pub fn new(
        session_id: SessionId,
        track_id: TrackId,
        codec_type: CodecType,
        initial_bitrate: u32,
        limits: AdaptationLimits,
        now_ms: u64,
    ) -> (a: BandwidthAdapter)
        ensures
            a.session_id() == session_id,
            a.track_id() == track_id,
            a.codec_type() == codec_type,
            a.limits() == limits,
            a.layer().is_none(),
            a.state() == (AdapterState {
                current_bitrate: initial_bitrate,
                available_bandwidth: initial_bitrate,
                trend: BandwidthTrend::Stable,
                last_adaptation_ms: now_ms,
            }),
    {
        BandwidthAdapter {
            session_id,
            track_id,
            codec_type,
            state: AdapterState {
                current_bitrate: initial_bitrate,
                available_bandwidth: initial_bitrate,
                trend: BandwidthTrend::Stable,
                last_adaptation_ms: now_ms,
            },
            limits,
            current_layer: None,
        }
    }

    /// The bitrate the adapter is at.
    pub fn current_bitrate(&self) -> (b: u32)
        ensures
            b == self.state().current_bitrate,
    {
        self.state.current_bitrate
    }

    /// The layer chosen at the last adaptation, if any.
    pub fn current_layer(&self) -> (l: Option<LayerId>)
        ensures
            l == self.layer(),
    {
        self.current_layer
    }

    /// Considers an adaptation at `now_ms` and returns the new bitrate if
    /// one happened.
    pub fn adapt_bitrate(&mut self, now_ms: u64, rates: ScaledRates) -> (r: Option<u32>)
        ensures
            final(self).session_id() == old(self).session_id(),
            final(self).track_id() == old(self).track_id(),
            final(self).codec_type() == old(self).codec_type(),
            final(self).limits() == old(self).limits(),
            final(self).layer() == old(self).layer(),
            final(self).state() == adapted_state(old(self).state(), old(self).limits(), now_ms, rates),
            r == (if adapts(old(self).state(), old(self).limits(), now_ms, rates) {
                Some(wanted_bitrate(old(self).state(), old(self).limits(), rates))
            } else {
                None
            }),
    {
        let elapsed: u64 = if now_ms >= self.state.last_adaptation_ms {
            now_ms - self.state.last_adaptation_ms
        } else {
            0
        };
        if elapsed < self.limits.stability_period_ms as u64 {
            return None;
        }
        let current = self.state.current_bitrate;
        let aimed = if rates.target > rates.raised && self.state.trend
            == BandwidthTrend::Increasing {
            rates.raised
        } else if rates.target < rates.lowered || self.state.trend
            == BandwidthTrend::Decreasing {
            rates.lowered
        } else {
            current
        };
        let floored = if aimed < self.limits.min_bitrate { self.limits.min_bitrate } else { aimed };
        let wanted = if floored > self.limits.max_bitrate {
            self.limits.max_bitrate
        } else {
            floored
        };
        if wanted != current {
            self.state.current_bitrate = wanted;
            self.state.last_adaptation_ms = now_ms;
            Some(wanted)
        } else {
            None
        }
    }

    /// Takes a feedback message. A bandwidth estimate for this adapter's
    /// session is recorded and an adaptation considered; anything else is
    /// ignored.
    pub fn process_feedback(&mut self, message: &FeedbackMessage, now_ms: u64, rates: ScaledRates) -> (r:
        Option<u32>)
        ensures
            final(self).session_id() == old(self).session_id(),
            final(self).track_id() == old(self).track_id(),
            final(self).codec_type() == old(self).codec_type(),
            final(self).limits() == old(self).limits(),
            final(self).layer() == old(self).layer(),
            match *message {
                FeedbackMessage::BandwidthEstimation(e) if e.session_id == old(self).session_id() => {
                    let informed = AdapterState {
                        available_bandwidth: e.available_bandwidth,
                        trend: e.trend,
                        ..old(self).state()
                    };
                    &&& final(self).state() == adapted_state(
                        informed,
                        old(self).limits(),
                        now_ms,
                        rates,
                    )
                    &&& r == (if adapts(informed, old(self).limits(), now_ms, rates) {
                        Some(wanted_bitrate(informed, old(self).limits(), rates))
                    } else {
                        None
                    })
                },
                _ => final(self).state() == old(self).state() && r.is_none(),
            },
    {
        match message {
            FeedbackMessage::BandwidthEstimation(e) => {
                if e.session_id == self.session_id {
                    self.state.available_bandwidth = e.available_bandwidth;
                    self.state.trend = e.trend;
                    self.adapt_bitrate(now_ms, rates)
                } else {
                    None
                }
            },
            _ => None,
        }
    }

    /// What a stream of the given direction is to be set to: nothing for a
    /// stream that does not send; the current bitrate for Opus; the current
    /// bitrate and layer for VP9; other codecs cannot be adapted.
    pub fn apply_to_stream(&self, direction: StreamDirection) -> (r: Result<
        Option<(u32, Option<LayerId>)>,
        SfuError,
    >)
        ensures
            r == (if !direction.spec_sends() {
                Ok::<Option<(u32, Option<LayerId>)>, SfuError>(None)
            } else {
                match self.codec_type() {
                    CodecType::Opus => Ok(Some((self.state().current_bitrate, None))),
                    CodecType::VP9 => Ok(Some((self.state().current_bitrate, self.layer()))),
                    _ => Err(SfuError::Media(MediaFault::UnsupportedCodec)),
                }
            }),
    {
        if !direction.sends() {
            return Ok(None);
        }
        match self.codec_type {
            CodecType::Opus => Ok(Some((self.state.current_bitrate, None))),
            CodecType::VP9 => Ok(Some((self.state.current_bitrate, self.current_layer))),
            _ => Err(SfuError::Media(MediaFault::UnsupportedCodec)),
        }
    }

    /// Considers an adaptation and, if one happened, asks the selector for
    /// the layer that fits the new bitrate and records it. A track unknown
    /// to the selector leaves the adaptation in place and reports the error.
    pub fn adapt_with_layers(
        &mut self,
        selector: &mut DefaultSimulcastManager,
        now_ms: u64,
        rates: ScaledRates,
    ) -> (r: Result<Option<u32>, SfuError>)
        requires
            old(selector).wf(),
        ensures
            final(selector).wf(),
            final(self).session_id() == old(self).session_id(),
            final(self).track_id() == old(self).track_id(),
            final(self).codec_type() == old(self).codec_type(),
            final(self).limits() == old(self).limits(),
            final(self).state() == adapted_state(old(self).state(), old(self).limits(), now_ms, rates),
            if !adapts(old(self).state(), old(self).limits(), now_ms, rates) {
                &&& r == Ok::<Option<u32>, SfuError>(None)
                &&& final(selector)@ == old(selector)@
                &&& final(self).layer() == old(self).layer()
            } else if !old(selector)@.contains_key(old(self).track_id()) {
                &&& r == Err::<Option<u32>, SfuError>(
                    SfuError::Media(MediaFault::TrackNotFound),
                )
                &&& final(selector)@ == old(selector)@
                &&& final(self).layer() == old(self).layer()
            } else {
                let wanted = wanted_bitrate(old(self).state(), old(self).limits(), rates);
                let track = old(selector)@[old(self).track_id()];
                &&& r == Ok::<Option<u32>, SfuError>(Some(wanted))
                &&& final(self).layer().is_some()
                &&& is_selection(track.layers, wanted, final(self).layer().unwrap() as int)
                &&& final(selector)@ == old(selector)@.insert(
                    old(self).track_id(),
                    TrackView {
                        selections: track.selections.insert(
                            old(self).session_id(),
                            selected_state(
                                track.selections,
                                old(self).session_id(),
                                final(self).layer().unwrap(),
                                now_ms,
                            ),
                        ),
                        ..track
                    },
                )
            },
    {
        match self.adapt_bitrate(now_ms, rates) {
            None => Ok(None),
            Some(wanted) => {
                match selector.select_layer(self.track_id, self.session_id, wanted, now_ms) {
                    Ok(layer) => {
                        self.current_layer = Some(layer);
                        Ok(Some(wanted))
                    },
                    Err(e) => Err(e),
                }
            },
        }
    }
}

} // verus!
