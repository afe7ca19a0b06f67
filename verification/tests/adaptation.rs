use rust_sfu_iroh::error::{MediaFault, SfuError};
use rust_sfu_iroh::feedback::{
    BandwidthEstimation, BandwidthTrend, FeedbackMessage, PictureLossIndication,
    SimulcastControlMessage,
};
use rust_sfu_iroh::media::codec::CodecType;
use rust_sfu_iroh::simulcast::manager::DefaultSimulcastManager;
use rust_sfu_iroh::simulcast::{LayerGrid, SubscriptionState};
use rust_sfu_iroh::transport::integration::StreamDirection;
use rust_sfu_iroh::transport::adaptation::{
    AdaptationLimits, AdaptationStrategy, BandwidthAdapter, ScaledRates,
};

fn rates(available: u32, current: u32) -> ScaledRates {
    ScaledRates {
        target: (available as f32 * 0.8) as u32,
        raised: (current as f32 * 1.2) as u32,
        lowered: (current as f32 * 0.8) as u32,
    }
}

fn estimate(session_id: u64, available: u32, trend: BandwidthTrend) -> FeedbackMessage {
    FeedbackMessage::BandwidthEstimation(BandwidthEstimation {
        session_id,
        available_bandwidth: available,
        trend,
    })
}

fn adapter(initial: u32) -> BandwidthAdapter {
    BandwidthAdapter::new(2, 7, CodecType::VP9, initial, AdaptationLimits::standard(), 0)
}

#[test]
fn standard_limits() {
    let l = AdaptationLimits::standard();
    assert_eq!(l.strategy, AdaptationStrategy::Moderate);
    assert_eq!(l.min_bitrate, 100_000);
    assert_eq!(l.max_bitrate, 5_000_000);
    assert_eq!(l.target_buffer_ms, 500);
    assert_eq!(l.stability_period_ms, 2000);
}

#[test]
fn nothing_adapts_inside_the_stability_window() {
    let mut a = adapter(1_000_000);
    let r = rates(100_000, 1_000_000);
    assert_eq!(a.adapt_bitrate(1_999, r), None);
    assert_eq!(a.current_bitrate(), 1_000_000);
    assert_eq!(a.adapt_bitrate(2_000, r), Some(800_000));
    assert_eq!(a.current_bitrate(), 800_000);
    for now in [2_000u64, 2_500, 3_999] {
        assert_eq!(a.adapt_bitrate(now, rates(100_000, 800_000)), None);
        assert_eq!(a.current_bitrate(), 800_000);
    }
    assert_eq!(a.adapt_bitrate(4_000, rates(100_000, 800_000)), Some(640_000));
}

#[test]
fn upscale_needs_target_and_rising_trend() {
    let mut a = adapter(1_000_000);
    let up = rates(2_000_000, 1_000_000);
    assert_eq!(a.process_feedback(&estimate(2, 2_000_000, BandwidthTrend::Stable), 5_000, up), None);
    assert_eq!(
        a.process_feedback(&estimate(2, 2_000_000, BandwidthTrend::Increasing), 5_000, up),
        Some(1_200_000)
    );
    assert_eq!(a.current_bitrate(), 1_200_000);
}

#[test]
fn falling_trend_alone_scales_down() {
    let mut a = adapter(1_000_000);
    let r = rates(5_000_000, 1_000_000);
    assert_eq!(
        a.process_feedback(&estimate(2, 5_000_000, BandwidthTrend::Decreasing), 5_000, r),
        Some(800_000)
    );
}

#[test]
fn new_bitrate_is_clamped() {
    let mut low = adapter(110_000);
    assert_eq!(
        low.process_feedback(&estimate(2, 1, BandwidthTrend::Decreasing), 5_000, rates(1, 110_000)),
        Some(100_000)
    );
    assert_eq!(
        low.process_feedback(&estimate(2, 1, BandwidthTrend::Decreasing), 9_000, rates(1, 100_000)),
        None
    );
    let mut high = adapter(4_900_000);
    assert_eq!(
        high.process_feedback(
            &estimate(2, 100_000_000, BandwidthTrend::Increasing),
            5_000,
            rates(100_000_000, 4_900_000)
        ),
        Some(5_000_000)
    );
}

#[test]
fn other_sessions_and_other_messages_are_ignored() {
    let mut a = adapter(1_000_000);
    let r = rates(1, 1_000_000);
    assert_eq!(a.process_feedback(&estimate(3, 1, BandwidthTrend::Decreasing), 5_000, r), None);
    let pli = FeedbackMessage::PictureLossIndication(PictureLossIndication { session_id: 2, track_id: 7 });
    assert_eq!(a.process_feedback(&pli, 5_000, r), None);
    assert_eq!(a.current_bitrate(), 1_000_000);
    assert_eq!(a.current_layer(), None);
}

#[test]
fn downgrade_reaches_base_layer_in_one_cycle() {
    let mut selector = DefaultSimulcastManager::new();
    selector
        .register_track(
            7,
            1,
            &LayerGrid {
                spatial_layers: 3,
                temporal_layers: 1,
                bitrates: vec![500_000, 1_000_000, 2_000_000],
            },
        )
        .unwrap();
    for s in 1..3u8 {
        selector
            .process_control_message(
                SimulcastControlMessage::ActivateLayers { track_id: 7, spatial_id: s, temporal_id: 0 },
                1,
            )
            .unwrap();
    }
    assert_eq!(selector.select_layer(7, 2, 3_000_000, 0), Ok(2));
    let mut a = adapter(1_200_000);
    assert_eq!(
        a.process_feedback(&estimate(2, 700_000, BandwidthTrend::Decreasing), 1_000, rates(700_000, 1_200_000)),
        None
    );
    let r = a.adapt_with_layers(&mut selector, 2_000, rates(700_000, 1_200_000));
    assert_eq!(r, Ok(Some(960_000)));
    assert_eq!(a.current_layer(), Some(0));
    assert_eq!(selector.subscription(7, 2), Some(SubscriptionState::Steady { layer: 0 }));
}

#[test]
fn adaptation_without_a_track_reports_it() {
    let mut selector = DefaultSimulcastManager::new();
    let mut a = adapter(1_000_000);
    let r = a.adapt_with_layers(&mut selector, 100, rates(1, 1_000_000));
    assert_eq!(r, Ok(None));
    let mut b = BandwidthAdapter::new(2, 7, CodecType::VP9, 1_000_000, AdaptationLimits::standard(), 0);
    let r = b.adapt_with_layers(&mut selector, 2_000, rates(1, 1_000_000));
    assert_eq!(r, Err(SfuError::Media(MediaFault::TrackNotFound)));
    assert_eq!(b.current_bitrate(), 800_000);
}

#[test]
fn streams_that_send_get_the_current_bitrate() {
    let vp9 = adapter(1_000_000);
    assert_eq!(
        vp9.apply_to_stream(StreamDirection::RecvOnly),
        Ok(None)
    );
    assert_eq!(
        vp9.apply_to_stream(StreamDirection::SendRecv),
        Ok(Some((1_000_000, None)))
    );
    let opus = BandwidthAdapter::new(2, 7, CodecType::Opus, 64_000, AdaptationLimits::standard(), 0);
    assert_eq!(
        opus.apply_to_stream(StreamDirection::SendOnly),
        Ok(Some((64_000, None)))
    );
    let h264 = BandwidthAdapter::new(2, 7, CodecType::H264, 64_000, AdaptationLimits::standard(), 0);
    assert_eq!(
        h264.apply_to_stream(StreamDirection::SendOnly),
        Err(SfuError::Media(MediaFault::UnsupportedCodec))
    );
    assert_eq!(
        h264.apply_to_stream(StreamDirection::Inactive),
        Ok(None)
    );
}
