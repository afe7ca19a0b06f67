use rust_sfu_iroh::bandwidth::{calculate_trend, BandwidthManager, DefaultBandwidthManager};
use rust_sfu_iroh::feedback::{BandwidthEstimation, BandwidthTrend};

#[test]
fn bandwidth_distribution() {
    let mut m = DefaultBandwidthManager::new();
    m.update_bandwidth(1, 2_000_000, true, 0);
    let out = m.distribute_bandwidth(1, 2_000_000, &vec![(11, 3), (12, 1)]);
    assert_eq!(out, vec![(11, 1_500_000), (12, 500_000)]);
    assert_eq!(m.get_recommended_bitrate(1, 11), 1_500_000);
    assert_eq!(m.get_recommended_bitrate(1, 12), 500_000);
}

#[test]
fn distribution_rounds_down() {
    let mut m = DefaultBandwidthManager::new();
    let out = m.distribute_bandwidth(1, 1_000_000, &vec![(1, 1), (2, 1), (3, 1)]);
    assert_eq!(out, vec![(1, 333_333), (2, 333_333), (3, 333_333)]);
}

#[test]
fn empty_and_zero_priorities() {
    let mut m = DefaultBandwidthManager::new();
    assert_eq!(m.distribute_bandwidth(1, 1_000_000, &vec![]), vec![]);
    assert_eq!(m.get_recommended_bitrate(1, 5), 500_000);
    let out = m.distribute_bandwidth(1, 1_000_000, &vec![(5, 0)]);
    assert_eq!(out, vec![(5, 0)]);
    assert_eq!(m.get_recommended_bitrate(1, 5), 0);
}

#[test]
fn recommended_bitrate_falls_back() {
    let mut m = DefaultBandwidthManager::new();
    assert_eq!(m.get_recommended_bitrate(1, 1), 500_000);
    m.update_bandwidth(1, 1_000_001, true, 0);
    assert_eq!(m.get_recommended_bitrate(1, 1), 700_000);
    m.update_bandwidth(1, 9, false, 1);
    assert_eq!(m.get_recommended_bitrate(1, 1), 700_000);
    assert_eq!(m.get_recommended_bitrate(2, 1), 500_000);
    m.distribute_bandwidth(1, 100, &vec![(1, 1)]);
    assert_eq!(m.get_recommended_bitrate(1, 1), 100);
    assert_eq!(m.get_recommended_bitrate(1, 2), 700_000);
}

#[test]
fn trend_needs_five_samples() {
    let mut m = DefaultBandwidthManager::new();
    assert_eq!(m.get_bandwidth_trend(1), None);
    for i in 0..4u64 {
        m.update_bandwidth(1, 1_000_000 + (i as u32) * 100_000, false, i * 1000);
        assert_eq!(m.get_bandwidth_trend(1), Some(BandwidthTrend::Stable));
    }
    m.update_bandwidth(1, 1_400_000, false, 4000);
    assert_eq!(m.get_bandwidth_trend(1), Some(BandwidthTrend::Increasing));
}

#[test]
fn trend_follows_the_slope() {
    let rising: Vec<(u64, u32)> = (0..5).map(|i| (i * 1000, 1_000_000 + (i as u32) * 1001)).collect();
    assert_eq!(calculate_trend(&rising, 5), BandwidthTrend::Increasing);
    let flat: Vec<(u64, u32)> = (0..5).map(|i| (i * 1000, 1_000_000 + (i as u32) * 1000)).collect();
    assert_eq!(calculate_trend(&flat, 5), BandwidthTrend::Stable);
    let falling: Vec<(u64, u32)> = (0..5).map(|i| (i * 1000, 1_000_000 - (i as u32) * 1001)).collect();
    assert_eq!(calculate_trend(&falling, 5), BandwidthTrend::Decreasing);
    let barely: Vec<(u64, u32)> = (0..5).map(|i| (i * 1000, 1_000_000 - (i as u32) * 1000)).collect();
    assert_eq!(calculate_trend(&barely, 5), BandwidthTrend::Stable);
    assert_eq!(calculate_trend(&rising, 6), BandwidthTrend::Stable);
    assert_eq!(calculate_trend(&Vec::new(), 0), BandwidthTrend::Stable);
    let same_time: Vec<(u64, u32)> = (0..5).map(|i| (7, i * 1_000_000)).collect();
    assert_eq!(calculate_trend(&same_time, 5), BandwidthTrend::Stable);
}

#[test]
fn old_samples_leave_the_window() {
    let mut m = DefaultBandwidthManager::new();
    for i in 0..5u64 {
        m.update_bandwidth(1, 5_000_000 - (i as u32) * 1_000_000, false, i * 1000);
    }
    assert_eq!(m.get_bandwidth_trend(1), Some(BandwidthTrend::Decreasing));
    // At 13.5 s only the sample taken at 4 s is still within ten seconds.
    m.update_bandwidth(1, 1_000_000, false, 13_500);
    assert_eq!(m.get_bandwidth_trend(1), Some(BandwidthTrend::Stable));
    // Three more make five samples, the first of them as low as the second.
    for i in 1..4u64 {
        m.update_bandwidth(1, 1_000_000 + (i as u32) * 500_000, false, 13_500 + i * 100);
    }
    assert_eq!(m.get_bandwidth_trend(1), Some(BandwidthTrend::Increasing));
    // At 24 s every earlier sample is older than ten seconds.
    m.update_bandwidth(1, 2_500_000, false, 24_000);
    assert_eq!(m.get_bandwidth_trend(1), Some(BandwidthTrend::Stable));
}

#[test]
fn a_clock_reading_before_the_last_update_counts_as_the_last_update() {
    let mut m = DefaultBandwidthManager::new();
    m.update_bandwidth(1, 1_000_000, false, 5_000);
    for i in 0..4u64 {
        m.update_bandwidth(1, 9_000_000, false, i);
    }
    // All five samples share the time 5000: no slope.
    assert_eq!(m.get_bandwidth_trend(1), Some(BandwidthTrend::Stable));
}

#[test]
fn estimates_are_stored_as_download() {
    let mut m = DefaultBandwidthManager::new();
    m.process_bandwidth_estimation(
        BandwidthEstimation {
            session_id: 4,
            available_bandwidth: 3_000_000,
            trend: BandwidthTrend::Increasing,
        },
        10,
    );
    assert_eq!(m.get_bandwidth_trend(4), Some(BandwidthTrend::Stable));
    assert_eq!(m.get_recommended_bitrate(4, 1), 0);
}

#[test]
fn manager_works_through_its_trait() {
    fn use_it<M: BandwidthManager>(m: &mut M) -> u32 {
        m.update_bandwidth(1, 10, true, 0);
        m.get_recommended_bitrate(1, 1)
    }
    let mut m = DefaultBandwidthManager::new();
    assert_eq!(use_it(&mut m), 7);
    assert_eq!(BandwidthManager::get_bandwidth_trend(&m, 1), Some(BandwidthTrend::Stable));
}

#[test]
fn forgetting_a_session_drops_record_and_allocations() {
    let mut m = DefaultBandwidthManager::default();
    m.update_bandwidth(1, 1_000_000, true, 0);
    m.update_bandwidth(2, 2_000_000, true, 0);
    m.distribute_bandwidth(1, 100, &vec![(5, 1)]);
    m.distribute_bandwidth(2, 200, &vec![(5, 1)]);
    m.forget_session(1);
    assert_eq!(m.get_bandwidth_trend(1), None);
    assert_eq!(m.get_recommended_bitrate(1, 5), 500_000);
    assert_eq!(m.get_recommended_bitrate(2, 5), 200);
    assert_eq!(m.get_bandwidth_trend(2), Some(BandwidthTrend::Stable));
}
