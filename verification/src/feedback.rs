//! Feedback messages: receiver and sender reports, simulcast control,
//! picture-loss indications and bandwidth estimates.
use vstd::prelude::*;
use crate::bandwidth::{fresh_info, updated_info, DefaultBandwidthManager};
use crate::error::SfuError;
use crate::simulcast::manager::{control_outcome, DefaultSimulcastManager};

verus! {

/// Identifier of a participant session.
pub type SessionId = u64;

/// Identifier of a media track.
pub type TrackId = u64;

/// Which way a bandwidth estimate is moving.
#[derive(Clone, Copy, Debug, PartialEq, Eq, Structural)]
pub enum BandwidthTrend {
    Increasing,
    Stable,
    Decreasing,
}

/// Why a subscriber switched layers.
#[derive(Clone, Copy, Debug, PartialEq, Eq, Structural)]
pub enum SwitchReason {
    Bandwidth,
    UserRequest,
    QualityAdaptation,
    ErrorRecovery,
}

/// What a receiver saw of a track. Loss is in thousandths of the packets
/// sent, jitter in microseconds.
#[derive(Clone, Copy, Debug, PartialEq, Eq, Structural)]
pub struct ReceiverReport {
    pub session_id: SessionId,
    pub track_id: TrackId,
    pub packet_loss_permille: u32,
    pub jitter_us: u32,
    pub rtt_ms: u32,
    pub received_bitrate: u32,
}

/// What a sender sent of a track.
#[derive(Clone, Copy, Debug, PartialEq, Eq, Structural)]
pub struct SenderReport {
    pub session_id: SessionId,
    pub track_id: TrackId,
    pub packets_sent: u64,
    pub bytes_sent: u64,
    pub current_bitrate: u32,
}

/// Simulcast control: layer activation, a switch notice, a bitrate update.
#[derive(Clone, Copy, Debug, PartialEq, Eq, Structural)]
pub enum SimulcastControlMessage {
    /// The publisher now sends the layer with these indices.
    ActivateLayers { track_id: TrackId, spatial_id: u8, temporal_id: u8 },
    /// A subscriber acted on a selection change.
    LayerSwitched { track_id: TrackId, spatial_id: u8, temporal_id: u8, reason: SwitchReason },
    /// The publisher changed a layer's target bitrate.
    LayerBitrateUpdate { track_id: TrackId, layer_id: u8, target_bitrate: u32 },
}

/// A request to the publisher of a track for a key frame.
#[derive(Clone, Copy, Debug, PartialEq, Eq, Structural)]
pub struct PictureLossIndication {
    pub session_id: SessionId,
    pub track_id: TrackId,
}

/// A bandwidth estimate of one session.
#[derive(Clone, Copy, Debug, PartialEq, Eq, Structural)]
pub struct BandwidthEstimation {
    pub session_id: SessionId,
    pub available_bandwidth: u32,
    pub trend: BandwidthTrend,
}

/// Any message of the feedback channel.
#[derive(Clone, Copy, Debug, PartialEq, Eq, Structural)]
pub enum FeedbackMessage {
    ReceiverReport(ReceiverReport),
    SenderReport(SenderReport),
    SimulcastControl(SimulcastControlMessage),
    PictureLossIndication(PictureLossIndication),
    BandwidthEstimation(BandwidthEstimation),
}

/// What is left to do with a feedback message after the managers took it.
#[derive(Clone, Copy, Debug, PartialEq, Eq, Structural)]
pub enum FeedbackAction {
    /// Nothing.
    Done,
    /// The report goes to the statistics.
    Record,
    /// The indication goes on to the publisher of the track.
    RequestKeyFrame { track_id: TrackId },
}

/// Hands feedback messages to the managers they concern.
pub struct DefaultFeedbackManager {}

impl DefaultFeedbackManager {
    /// The manager.
    pub fn new() -> (m: DefaultFeedbackManager) {
        DefaultFeedbackManager {  }
    }

    /// Takes one feedback message that came from session `from`. Reports
    /// are for the statistics; simulcast control goes to the selector as a
    /// message of that session; a picture-loss indication goes on to the
    /// publisher; a bandwidth estimate goes to the bandwidth manager.
    pub fn process_feedback(
        &self,
        message: FeedbackMessage,
        from: SessionId,
        bandwidth: &mut DefaultBandwidthManager,
        selector: &mut DefaultSimulcastManager,
        now_ms: u64,
    ) -> (r: Result<FeedbackAction, SfuError>)
        requires
            old(bandwidth).wf(),
            old(selector).wf(),
        ensures
            final(bandwidth).wf(),
            final(selector).wf(),
            final(bandwidth).window_ms() == old(bandwidth).window_ms(),
            final(bandwidth).min_samples() == old(bandwidth).min_samples(),
            final(bandwidth).allocations() == old(bandwidth).allocations(),
            match message {
                FeedbackMessage::ReceiverReport(_) | FeedbackMessage::SenderReport(_) => {
                    &&& r == Ok::<FeedbackAction, SfuError>(FeedbackAction::Record)
                    &&& final(selector)@ == old(selector)@
                    &&& final(bandwidth).sessions() == old(bandwidth).sessions()
                },
                FeedbackMessage::PictureLossIndication(pli) => {
                    &&& r == Ok::<FeedbackAction, SfuError>(
                        FeedbackAction::RequestKeyFrame { track_id: pli.track_id },
                    )
                    &&& final(selector)@ == old(selector)@
                    &&& final(bandwidth).sessions() == old(bandwidth).sessions()
                },
                FeedbackMessage::SimulcastControl(control) => {
                    &&& final(bandwidth).sessions() == old(bandwidth).sessions()
                    &&& match control_outcome(old(selector)@, control, from) {
                        Ok(m) => r == Ok::<FeedbackAction, SfuError>(FeedbackAction::Done)
                            && final(selector)@ == m,
                        Err(e) => r == Err::<FeedbackAction, SfuError>(e) && final(selector)@
                            == old(selector)@,
                    }
                },
                FeedbackMessage::BandwidthEstimation(e) => {
                    &&& r == Ok::<FeedbackAction, SfuError>(FeedbackAction::Done)
                    &&& final(selector)@ == old(selector)@
                    &&& final(bandwidth).sessions() == old(bandwidth).sessions().insert(
                        e.session_id,
                        updated_info(
                            if old(bandwidth).sessions().contains_key(e.session_id) {
                                old(bandwidth).sessions()[e.session_id]
                            } else {
                                fresh_info(now_ms)
                            },
                            e.available_bandwidth,
                            false,
                            now_ms,
                            old(bandwidth).window_ms(),
                            old(bandwidth).min_samples(),
                        ),
                    )
                },
            },
    {
        match message {
            FeedbackMessage::ReceiverReport(_) => Ok(FeedbackAction::Record),
            FeedbackMessage::SenderReport(_) => Ok(FeedbackAction::Record),
            FeedbackMessage::PictureLossIndication(pli) => Ok(
                FeedbackAction::RequestKeyFrame { track_id: pli.track_id },
            ),
            FeedbackMessage::SimulcastControl(control) => {
                match selector.process_control_message(control, from) {
                    Ok(()) => Ok(FeedbackAction::Done),
                    Err(e) => Err(e),
                }
            },
            FeedbackMessage::BandwidthEstimation(e) => {
                bandwidth.process_bandwidth_estimation(e, now_ms);
                Ok(FeedbackAction::Done)
            },
        }
    }
}

} // verus!
