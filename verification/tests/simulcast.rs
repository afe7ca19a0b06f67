use rust_sfu_iroh::error::{MediaFault, SfuError};
use rust_sfu_iroh::feedback::{SimulcastControlMessage, SwitchReason};
use rust_sfu_iroh::simulcast::manager::DefaultSimulcastManager;
use rust_sfu_iroh::simulcast::{
    create_layers, forwards, pick_layer, LayerGrid, SimulcastLayer, SubscriptionEvent,
    SubscriptionState,
};

fn grid(s: u8, t: u8, bitrates: Vec<u32>) -> LayerGrid {
    LayerGrid { spatial_layers: s, temporal_layers: t, bitrates }
}

fn three_layers() -> DefaultSimulcastManager {
    let mut m = DefaultSimulcastManager::new();
    m.register_track(7, 1, &grid(3, 1, vec![500_000, 1_000_000, 2_000_000])).unwrap();
    for s in 1..3u8 {
        m.process_control_message(
            SimulcastControlMessage::ActivateLayers { track_id: 7, spatial_id: s, temporal_id: 0 },
            1,
        )
        .unwrap();
    }
    m
}

#[test]
fn layers_are_numbered_by_spatial_then_temporal() {
    let bitrates = vec![500_000, 750_000, 1_000_000, 1_500_000, 2_000_000, 3_000_000];
    let layers = create_layers(&grid(3, 2, bitrates.clone())).unwrap();
    assert_eq!(layers.len(), 6);
    for s in 0..3u8 {
        for t in 0..2u8 {
            let id = (s * 2 + t) as usize;
            assert_eq!(
                layers[id],
                SimulcastLayer {
                    layer_id: id as u8,
                    spatial_id: s,
                    temporal_id: t,
                    target_bitrate: bitrates[id],
                    active: id == 0,
                }
            );
        }
    }
}

#[test]
fn invalid_grids_are_refused() {
    let e = Err(SfuError::Media(MediaFault::InvalidLayers));
    assert_eq!(create_layers(&grid(0, 3, vec![])), e);
    assert_eq!(create_layers(&grid(2, 2, vec![1, 2, 3])), e);
    assert_eq!(create_layers(&grid(17, 16, vec![0; 272])), e);
    assert!(create_layers(&grid(16, 16, vec![0; 256])).is_ok());
    let mut m = DefaultSimulcastManager::new();
    assert_eq!(m.register_track(1, 1, &grid(0, 0, vec![])), Err(SfuError::Media(MediaFault::InvalidLayers)));
    assert_eq!(
        m.get_available_layers(1),
        Err(SfuError::Media(MediaFault::TrackNotFound))
    );
}

#[test]
fn pick_takes_highest_fitting_active_layer() {
    let mut layers = create_layers(&grid(3, 1, vec![500_000, 1_000_000, 2_000_000])).unwrap();
    assert_eq!(pick_layer(&layers, 5_000_000), 0);
    layers[1].active = true;
    layers[2].active = true;
    assert_eq!(pick_layer(&layers, 5_000_000), 2);
    assert_eq!(pick_layer(&layers, 2_000_000), 2);
    assert_eq!(pick_layer(&layers, 1_999_999), 1);
    assert_eq!(pick_layer(&layers, 700_000), 0);
    assert_eq!(pick_layer(&layers, 100), 0);
    layers[0].active = false;
    assert_eq!(pick_layer(&layers, 100), 1);
}

#[test]
fn only_the_base_layer_is_active_at_first() {
    let mut m = DefaultSimulcastManager::new();
    m.register_track(7, 1, &grid(3, 1, vec![500_000, 1_000_000, 2_000_000])).unwrap();
    assert_eq!(m.select_layer(7, 2, 10_000_000, 0), Ok(0));
    let layers = m.get_available_layers(7).unwrap();
    assert!(layers[0].active && !layers[1].active && !layers[2].active);
}

#[test]
fn control_messages_come_from_the_publisher_only() {
    let mut m = DefaultSimulcastManager::new();
    m.register_track(7, 1, &grid(3, 1, vec![500_000, 1_000_000, 2_000_000])).unwrap();
    let activate = SimulcastControlMessage::ActivateLayers { track_id: 7, spatial_id: 1, temporal_id: 0 };
    assert_eq!(
        m.process_control_message(activate, 2),
        Err(SfuError::Media(MediaFault::NotPublisher))
    );
    assert!(!m.get_available_layers(7).unwrap()[1].active);
    assert_eq!(m.process_control_message(activate, 1), Ok(()));
    assert!(m.get_available_layers(7).unwrap()[1].active);
    assert_eq!(
        m.process_control_message(
            SimulcastControlMessage::ActivateLayers { track_id: 8, spatial_id: 1, temporal_id: 0 },
            1
        ),
        Err(SfuError::Media(MediaFault::TrackNotFound))
    );
    assert_eq!(
        m.process_control_message(
            SimulcastControlMessage::ActivateLayers { track_id: 7, spatial_id: 1, temporal_id: 4 },
            1
        ),
        Err(SfuError::Media(MediaFault::LayerNotFound))
    );
    assert_eq!(
        m.process_control_message(
            SimulcastControlMessage::LayerBitrateUpdate { track_id: 7, layer_id: 3, target_bitrate: 1 },
            1
        ),
        Err(SfuError::Media(MediaFault::LayerNotFound))
    );
    assert_eq!(
        m.process_control_message(
            SimulcastControlMessage::LayerBitrateUpdate { track_id: 7, layer_id: 1, target_bitrate: 900_000 },
            1
        ),
        Ok(())
    );
    assert_eq!(m.get_available_layers(7).unwrap()[1].target_bitrate, 900_000);
    assert_eq!(
        m.process_control_message(
            SimulcastControlMessage::LayerSwitched {
                track_id: 99,
                spatial_id: 0,
                temporal_id: 0,
                reason: SwitchReason::Bandwidth
            },
            5
        ),
        Ok(())
    );
}

#[test]
fn bandwidth_downgrade_commits_at_once() {
    let mut m = three_layers();
    assert_eq!(m.select_layer(7, 2, 3_000_000, 0), Ok(2));
    assert_eq!(m.subscription(7, 2), Some(SubscriptionState::Steady { layer: 2 }));
    assert_eq!(m.select_layer(7, 2, 700_000, 5_000), Ok(0));
    assert_eq!(m.subscription(7, 2), Some(SubscriptionState::Steady { layer: 0 }));
    assert_eq!(m.committed_layer(7, 2).unwrap().layer_id, 0);
}

#[test]
fn bandwidth_upgrade_waits_for_key_frame() {
    let mut m = three_layers();
    assert_eq!(m.select_layer(7, 2, 500_000, 0), Ok(0));
    assert_eq!(m.select_layer(7, 2, 2_500_000, 1_000), Ok(2));
    assert_eq!(
        m.subscription(7, 2),
        Some(SubscriptionState::PendingUp { from: 0, to: 2, since_ms: 1_000 })
    );
    assert_eq!(m.committed_layer(7, 2).unwrap().layer_id, 0);
    m.key_frame_forwarded(7, 2, 1);
    assert_eq!(m.committed_layer(7, 2).unwrap().layer_id, 0);
    m.key_frame_forwarded(7, 2, 2);
    assert_eq!(m.subscription(7, 2), Some(SubscriptionState::Steady { layer: 2 }));
    assert_eq!(m.committed_layer(7, 2).unwrap().layer_id, 2);
}

#[test]
fn pli_is_due_after_two_seconds_and_restarts_the_wait() {
    let mut m = three_layers();
    m.select_layer(7, 2, 500_000, 0).unwrap();
    m.select_layer(7, 2, 2_500_000, 1_000).unwrap();
    assert!(!m.poll_pli(7, 2, 2_999));
    assert!(m.poll_pli(7, 2, 3_000));
    assert_eq!(
        m.subscription(7, 2),
        Some(SubscriptionState::PendingUp { from: 0, to: 2, since_ms: 3_000 })
    );
    assert!(!m.poll_pli(7, 2, 4_999));
    assert!(m.poll_pli(7, 2, 5_000));
    assert!(!m.poll_pli(7, 3, 9_000));
    assert!(!m.poll_pli(8, 2, 9_000));
    m.key_frame_forwarded(7, 2, 2);
    assert!(!m.poll_pli(7, 2, 60_000));
}

#[test]
fn repeated_selection_keeps_the_clock() {
    let s = SubscriptionState::Steady { layer: 0 };
    let p = s.apply(SubscriptionEvent::Selected { layer: 2, now_ms: 10 });
    assert_eq!(p, SubscriptionState::PendingUp { from: 0, to: 2, since_ms: 10 });
    let q = p.apply(SubscriptionEvent::Selected { layer: 2, now_ms: 500 });
    assert_eq!(q, p);
    let r = p.apply(SubscriptionEvent::Selected { layer: 1, now_ms: 600 });
    assert_eq!(r, SubscriptionState::PendingUp { from: 0, to: 1, since_ms: 600 });
    let back = p.apply(SubscriptionEvent::Selected { layer: 0, now_ms: 700 });
    assert_eq!(back, SubscriptionState::Steady { layer: 0 });
    assert_eq!(p.committed(), 0);
    assert_eq!(p.pending(), Some(2));
    assert_eq!(s.pending(), None);
    assert!(p.pli_due(2_010));
    assert!(!p.pli_due(2_009));
    assert!(!p.pli_due(0));
}

#[test]
fn every_committed_layer_is_active() {
    let mut m = three_layers();
    for (sub, bw) in [(2u64, 400_000u32), (3, 1_200_000), (4, 9_000_000)] {
        m.select_layer(7, sub, bw, 0).unwrap();
    }
    m.select_layer(7, 2, 9_000_000, 10).unwrap();
    m.key_frame_forwarded(7, 2, 2);
    m.select_layer(7, 4, 1_000_000, 20).unwrap();
    let layers = m.get_available_layers(7).unwrap();
    assert!(layers.iter().any(|l| l.active));
    for sub in 2..5u64 {
        let l = m.committed_layer(7, sub).unwrap();
        assert!(l.active);
        assert!(layers[l.layer_id as usize].active);
    }
}

#[test]
fn unregister_forgets_the_track() {
    let mut m = three_layers();
    assert_eq!(m.unregister_track(7), Ok(()));
    assert_eq!(m.unregister_track(7), Err(SfuError::Media(MediaFault::TrackNotFound)));
    assert_eq!(
        m.select_layer(7, 2, 1, 0),
        Err(SfuError::Media(MediaFault::TrackNotFound))
    );
    assert_eq!(m.committed_layer(7, 2), None);
}

#[test]
fn frames_at_or_below_the_selected_layer_are_forwarded() {
    let selected = SimulcastLayer {
        layer_id: 3,
        spatial_id: 1,
        temporal_id: 1,
        target_bitrate: 1,
        active: true,
    };
    assert!(forwards(selected, 0, 0));
    assert!(forwards(selected, 1, 1));
    assert!(!forwards(selected, 2, 0));
    assert!(!forwards(selected, 0, 2));
}
