use rust_sfu_iroh::error::{MediaFault, SessionFault, SfuError};
use rust_sfu_iroh::media::{MediaTrack, TrackKind};
use rust_sfu_iroh::session::DefaultSessionManager;

fn audio() -> MediaTrack {
    MediaTrack::new(TrackKind::Audio, "opus".to_string(), Vec::new())
}

fn sorted(mut v: Vec<u64>) -> Vec<u64> {
    v.sort();
    v
}

#[test]
fn session_ids_start_at_one_and_rise() {
    let mut m = DefaultSessionManager::new();
    assert_eq!(m.create_session(vec![1], 0), Ok(1));
    assert_eq!(m.create_session(vec![2], 0), Ok(2));
    assert_eq!(sorted(m.get_all_sessions()), vec![1, 2]);
    let p = m.get_participant(2).unwrap();
    assert_eq!(p.session_id, 2);
    assert_eq!(p.node_id, vec![2]);
}

#[test]
fn ids_are_not_reused_after_removal() {
    let mut m = DefaultSessionManager::new();
    let a = m.create_session(vec![1], 0).unwrap();
    let t = m.register_published_track(a, audio()).unwrap();
    m.remove_session(a).unwrap();
    let b = m.create_session(vec![1], 0).unwrap();
    assert!(b > a);
    let u = m.register_published_track(b, audio()).unwrap();
    assert!(u > t);
}

#[test]
fn unknown_session_is_not_found() {
    let mut m = DefaultSessionManager::new();
    assert!(matches!(
        m.get_participant(9),
        Err(SfuError::Session(SessionFault::NotFound))
    ));
    assert_eq!(m.remove_session(9), Err(SfuError::Session(SessionFault::NotFound)));
    assert_eq!(
        m.register_published_track(9, audio()),
        Err(SfuError::Session(SessionFault::NotFound))
    );
    assert_eq!(
        m.get_published_tracks(9),
        Err(SfuError::Session(SessionFault::NotFound))
    );
    assert_eq!(
        m.get_subscribed_tracks(9),
        Err(SfuError::Session(SessionFault::NotFound))
    );
    assert_eq!(
        m.unregister_subscribed_track(9, 1),
        Err(SfuError::Session(SessionFault::NotFound))
    );
}

#[test]
fn subscribe_checks_sessions_then_self_then_track() {
    let mut m = DefaultSessionManager::new();
    let a = m.create_session(vec![1], 0).unwrap();
    let b = m.create_session(vec![2], 0).unwrap();
    let t = m.register_published_track(a, audio()).unwrap();
    assert_eq!(
        m.register_subscribed_track(b, 77, t),
        Err(SfuError::Session(SessionFault::NotFound))
    );
    assert_eq!(
        m.register_subscribed_track(77, a, t),
        Err(SfuError::Session(SessionFault::NotFound))
    );
    assert_eq!(
        m.register_subscribed_track(a, a, t),
        Err(SfuError::Session(SessionFault::InvalidSelf))
    );
    assert_eq!(
        m.register_subscribed_track(b, a, t + 1),
        Err(SfuError::Media(MediaFault::TrackNotFound))
    );
    assert_eq!(
        m.register_subscribed_track(a, b, t),
        Err(SfuError::Media(MediaFault::TrackNotFound))
    );
    assert_eq!(m.register_subscribed_track(b, a, t), Ok(()));
    assert_eq!(m.get_subscribed_tracks(b), Ok(vec![t]));
    assert_eq!(m.get_subscribers(t), vec![b]);
    assert_eq!(m.get_published_tracks(a), Ok(vec![t]));
    assert_eq!(m.track_publisher(t), Some(a));
    assert!(m.has_track(t));
}

#[test]
fn subscribing_twice_changes_nothing() {
    let mut m = DefaultSessionManager::new();
    let a = m.create_session(vec![1], 0).unwrap();
    let b = m.create_session(vec![2], 0).unwrap();
    let t = m.register_published_track(a, audio()).unwrap();
    assert_eq!(m.register_subscribed_track(b, a, t), Ok(()));
    assert_eq!(m.register_subscribed_track(b, a, t), Ok(()));
    assert_eq!(m.get_subscribed_tracks(b), Ok(vec![t]));
    assert_eq!(m.get_subscribers(t), vec![b]);
}

#[test]
fn unsubscribe_removes_both_directions() {
    let mut m = DefaultSessionManager::new();
    let a = m.create_session(vec![1], 0).unwrap();
    let b = m.create_session(vec![2], 0).unwrap();
    let t = m.register_published_track(a, audio()).unwrap();
    assert_eq!(
        m.unregister_subscribed_track(b, t),
        Err(SfuError::Media(MediaFault::NotSubscribed))
    );
    m.register_subscribed_track(b, a, t).unwrap();
    assert_eq!(m.unregister_subscribed_track(b, t), Ok(()));
    assert_eq!(m.get_subscribed_tracks(b), Ok(vec![]));
    assert_eq!(m.get_subscribers(t), Vec::<u64>::new());
    assert_eq!(m.get_published_tracks(a), Ok(vec![t]));
}

#[test]
fn publisher_leaves_mid_call() {
    let mut m = DefaultSessionManager::new();
    let a = m.create_session(vec![1], 0).unwrap();
    let b = m.create_session(vec![2], 0).unwrap();
    let t = m.register_published_track(a, audio()).unwrap();
    m.register_subscribed_track(b, a, t).unwrap();
    let to_notify = m.get_subscribers(t);
    assert_eq!(to_notify, vec![b]);
    assert_eq!(m.remove_session(a), Ok(()));
    assert_eq!(m.get_subscribed_tracks(b), Ok(vec![]));
    assert!(!m.has_track(t));
    assert_eq!(m.track_publisher(t), None);
    assert_eq!(m.get_all_sessions(), vec![b]);
}

#[test]
fn subscriber_leaves_and_is_in_no_subscriber_set() {
    let mut m = DefaultSessionManager::new();
    let a = m.create_session(vec![1], 0).unwrap();
    let b = m.create_session(vec![2], 0).unwrap();
    let c = m.create_session(vec![3], 0).unwrap();
    let t = m.register_published_track(a, audio()).unwrap();
    let u = m.register_published_track(b, audio()).unwrap();
    m.register_subscribed_track(b, a, t).unwrap();
    m.register_subscribed_track(c, a, t).unwrap();
    m.register_subscribed_track(c, b, u).unwrap();
    m.register_subscribed_track(a, b, u).unwrap();
    assert_eq!(m.remove_session(b), Ok(()));
    assert_eq!(m.get_subscribers(t), vec![c]);
    assert_eq!(m.get_subscribers(u), Vec::<u64>::new());
    assert_eq!(m.get_subscribed_tracks(c), Ok(vec![t]));
    assert_eq!(m.get_subscribed_tracks(a), Ok(vec![]));
    assert_eq!(m.get_published_tracks(a), Ok(vec![t]));
    assert_eq!(sorted(m.get_all_sessions()), vec![a, c]);
}

#[test]
fn every_subscription_has_its_track_and_its_subscriber_entry() {
    let mut m = DefaultSessionManager::new();
    let mut ids = Vec::new();
    for i in 0..5u8 {
        ids.push(m.create_session(vec![i], 0).unwrap());
    }
    let mut tracks = Vec::new();
    for &p in &ids {
        tracks.push((p, m.register_published_track(p, audio()).unwrap()));
    }
    for &s in &ids {
        for &(p, t) in &tracks {
            let r = m.register_subscribed_track(s, p, t);
            assert_eq!(r.is_ok(), s != p);
        }
    }
    m.remove_session(ids[2]).unwrap();
    m.unregister_subscribed_track(ids[0], tracks[1].1).unwrap();
    for s in m.get_all_sessions() {
        for t in m.get_subscribed_tracks(s).unwrap() {
            let p = m.track_publisher(t).unwrap();
            assert!(p != s);
            assert!(m.get_participant(p).is_ok());
            assert!(m.get_subscribers(t).contains(&s));
            assert!(p != ids[2]);
        }
    }
    for &(_, t) in &tracks {
        for s in m.get_subscribers(t) {
            assert!(m.get_participant(s).is_ok());
            assert!(m.get_subscribed_tracks(s).unwrap().contains(&t));
        }
    }
}

#[test]
fn silent_sessions_are_found() {
    let mut m = DefaultSessionManager::new();
    let a = m.create_session(vec![1], 1_000).unwrap();
    let b = m.create_session(vec![2], 2_000).unwrap();
    assert_eq!(m.get_participant(a).unwrap().last_activity_ms, 1_000);
    assert_eq!(m.inactive_sessions(60_999, 60_000), Vec::<u64>::new());
    assert_eq!(m.inactive_sessions(61_000, 60_000), vec![a]);
    assert_eq!(m.touch(a, 50_000), Ok(()));
    assert_eq!(m.get_participant(a).unwrap().last_activity_ms, 50_000);
    assert_eq!(m.inactive_sessions(62_000, 60_000), vec![b]);
    assert_eq!(m.inactive_sessions(500, 60_000), Vec::<u64>::new());
    assert_eq!(m.touch(9, 1), Err(SfuError::Session(SessionFault::NotFound)));
    m.remove_session(b).unwrap();
    assert_eq!(m.inactive_sessions(200_000, 60_000), vec![a]);
    assert_eq!(sorted(m.get_all_sessions()), vec![a]);
}

#[test]
fn track_kind_is_recorded() {
    let mut m = DefaultSessionManager::new();
    let a = m.create_session(vec![1], 0).unwrap();
    let t = m.register_published_track(a, audio()).unwrap();
    let v = m
        .register_published_track(a, MediaTrack::new(TrackKind::Video, "VP9".to_string(), Vec::new()))
        .unwrap();
    assert_eq!(m.track_kind(t), Some(TrackKind::Audio));
    assert_eq!(m.track_kind(v), Some(TrackKind::Video));
    assert_eq!(m.track_kind(v + 1), None);
    m.remove_session(a).unwrap();
    assert_eq!(m.track_kind(t), None);
}
