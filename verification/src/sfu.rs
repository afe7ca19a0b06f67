//! Configuration of the forwarding unit.
use vstd::prelude::*;
use crate::error::{SessionFault, SfuError};
use crate::feedback::{SessionId, TrackId};
use crate::session::DefaultSessionManager;
use crate::simulcast::manager::{DefaultSimulcastManager, TrackView};

verus! {

/// Options read at startup.
#[derive(Clone, Copy, Debug, PartialEq, Eq, Structural)]
pub struct SfuConfig {
    pub max_participants: usize,
    pub max_bitrate_per_participant: u32,
    pub enable_simulcast: bool,
    pub enable_feedback: bool,
}

impl SfuConfig {
    /// A hundred participants at five megabits each, with simulcast and
    /// feedback.
    pub fn standard() -> (c: SfuConfig)
        ensures
            c == (SfuConfig {
                max_participants: 100,
                max_bitrate_per_participant: 5_000_000,
                enable_simulcast: true,
                enable_feedback: true,
            }),
    {
        SfuConfig {
            max_participants: 100,
            max_bitrate_per_participant: 5_000_000,
            enable_simulcast: true,
            enable_feedback: true,
        }
    }

    /// Whether one more participant may join when `live` are connected.
    pub fn admits(&self, live: usize) -> (r: bool)
        ensures
            r == (live < self.max_participants),
    {
        live < self.max_participants
    }
}

/// How long a signaling request may wait for its answer, in milliseconds.
pub const SIGNALING_TIMEOUT_MS: u64 = 5_000;

/// How long the opening of a flow may take, in milliseconds.
pub const FLOW_OPEN_TIMEOUT_MS: u64 = 2_000;

/// How long a participant may stay silent before it is evicted, in
/// milliseconds.
pub const INACTIVITY_TIMEOUT_MS: u64 = 60_000;

/// The number of frames that an outbound queue holds by default.
pub const DEFAULT_QUEUE_FRAMES: usize = 30;

/// Whether a wait that began at `since_ms` has run out at `now_ms`.
pub open spec fn timed_out(since_ms: u64, now_ms: u64, timeout_ms: u64) -> bool {
    now_ms >= since_ms && now_ms - since_ms >= timeout_ms
}

/// Whether a wait that began at `since_ms` has run out at `now_ms`. A clock
/// reading before the start counts as no time passed.
pub fn has_timed_out(since_ms: u64, now_ms: u64, timeout_ms: u64) -> (r: bool)
    ensures
        r == timed_out(since_ms, now_ms, timeout_ms),
{
    now_ms >= since_ms && now_ms - since_ms >= timeout_ms
}

impl Default for SfuConfig {
    fn default() -> (c: SfuConfig)
        ensures
            c == (SfuConfig {
                max_participants: 100,
                max_bitrate_per_participant: 5_000_000,
                enable_simulcast: true,
                enable_feedback: true,
            }),
    {
        SfuConfig::standard()
    }
}

/// What the selector holds of a track after session `x` left: nothing if
/// `x` published it; else its state without a selection of `x` if `x` was
/// subscribed to it; else its state as it was.
pub open spec fn selector_without(
    m: Map<TrackId, TrackView>,
    published: Set<TrackId>,
    subscribed: Set<TrackId>,
    x: SessionId,
) -> Map<TrackId, TrackView> {
    Map::new(
        |t: TrackId| m.contains_key(t) && !published.contains(t),
        |t: TrackId|
            if subscribed.contains(t) {
                TrackView { selections: m[t].selections.remove(x), ..m[t] }
            } else {
                m[t]
            },
    )
}

/// Takes a session out of the unit. The registry loses the session with
/// its tracks and every subscription to or from it; the selector loses the
/// session's tracks and the session's selections on the tracks it was
/// subscribed to. Returned are the (subscriber, track) pairs that lost a
/// track of the session: each of these subscribers is owed a notice that
/// the track is gone.
pub fn disconnect(
    registry: &mut DefaultSessionManager,
    selector: &mut DefaultSimulcastManager,
    session_id: SessionId,
) -> (r: Result<Vec<(SessionId, TrackId)>, SfuError>)
    requires
        old(registry).wf(),
        old(selector).wf(),
    ensures
        final(registry).wf(),
        final(selector).wf(),
        match r {
            Ok(notices) => {
                &&& old(registry)@.sessions.contains(session_id)
                &&& final(registry)@ == old(registry)@.without_session(session_id)
                &&& forall|s: SessionId, t: TrackId|
                    notices@.contains((s, t)) <==> old(registry)@.edges.contains((s, t, session_id))
                &&& final(selector)@ == selector_without(
                    old(selector)@,
                    old(registry)@.published_tracks(session_id),
                    old(registry)@.subscribed_tracks(session_id),
                    session_id,
                )
            },
            Err(e) => {
                &&& !old(registry)@.sessions.contains(session_id)
                &&& e == SfuError::Session(SessionFault::NotFound)
                &&& final(registry)@ == old(registry)@
                &&& final(selector)@ == old(selector)@
            },
        },
{
    let published = match registry.get_published_tracks(session_id) {
        Ok(v) => v,
        Err(e) => {
            return Err(e);
        },
    };
    let subscribed = match registry.get_subscribed_tracks(session_id) {
        Ok(v) => v,
        Err(e) => {
            return Err(e);
        },
    };
    proof {
        registry.lemma_wf();
    }
    let ghost g = registry@;
    let ghost m = selector@;
    let mut notices: Vec<(SessionId, TrackId)> = Vec::new();
    let mut i: usize = 0;
    while i < published.len()
        invariant
            i <= published@.len(),
            registry.wf(),
            registry@ == g,
            g.valid(),
            selector.wf(),
            forall|t: TrackId| published@.contains(t) <==> g.tracks.contains((t, session_id)),
            forall|t: TrackId| #[trigger]
                selector@.contains_key(t) <==> m.contains_key(t) && !published@.take(
                    i as int,
                ).contains(t),
            forall|t: TrackId| #[trigger] selector@.contains_key(t) ==> selector@[t] == m[t],
            forall|s: SessionId, t: TrackId|
                notices@.contains((s, t)) <==> published@.take(i as int).contains(t)
                    && g.edges.contains((s, t, session_id)),
        decreases published@.len() - i,
    {
        let track_id = published[i];
        let ghost before_sel = selector@;
        let ghost before_notices = notices@;
        let _ = selector.unregister_track(track_id);
        let subscribers = registry.get_subscribers(track_id);
        assert(published@.contains(track_id));
        assert(g.tracks.contains((track_id, session_id)));
        let mut j: usize = 0;
        while j < subscribers.len()
            invariant
                j <= subscribers@.len(),
                forall|s: SessionId|
                    subscribers@.contains(s) <==> g.subscribers(track_id).contains(s),
                forall|s: SessionId, t: TrackId|
                    notices@.contains((s, t)) <==> before_notices.contains((s, t)) || (t
                        == track_id && subscribers@.take(j as int).contains(s)),
            decreases subscribers@.len() - j,
        {
            let ghost prev = notices@;
            notices.push((subscribers[j], track_id));
            proof {
                let subs = subscribers@;
                let tj0 = subs.take(j as int);
                let tj1 = subs.take(j + 1);
                assert(tj1.drop_last() =~= tj0);
                assert forall|s: SessionId, t: TrackId|
                    notices@.contains((s, t)) <==> before_notices.contains((s, t)) || (t
                        == track_id && tj1.contains(s)) by {
                    if notices@.contains((s, t)) {
                        let k = choose|k: int| 0 <= k < notices@.len() && notices@[k] == (s, t);
                        if k < prev.len() {
                            assert(prev[k] == (s, t));
                            assert(prev.contains((s, t)));
                            if !before_notices.contains((s, t)) {
                                let q = choose|q: int|
                                    0 <= q < tj0.len() && tj0[q]
                                        == s;
                                assert(tj1[q] == s);
                            }
                        } else {
                            assert(tj1[j as int] == s);
                        }
                    }
                    if before_notices.contains((s, t)) {
                        assert(prev.contains((s, t)));
                        let k = choose|k: int| 0 <= k < prev.len() && prev[k] == (s, t);
                        assert(notices@[k] == (s, t));
                    }
                    if t == track_id && tj1.contains(s) {
                        let q = choose|q: int|
                            0 <= q < tj1.len() && tj1[q] == s;
                        if q < j {
                            assert(tj0[q] == s);
                            assert(tj0.contains(s));
                            assert(prev.contains((s, t)));
                            let k = choose|k: int| 0 <= k < prev.len() && prev[k] == (s, t);
                            assert(notices@[k] == (s, t));
                        } else {
                            assert(notices@[prev.len() as int] == (s, t));
                        }
                    }
                }
            }
            j = j + 1;
        }
        proof {
            let subs = subscribers@;
            assert(subs.take(j as int) =~= subs);
            let pubs = published@;
            let pi0 = pubs.take(i as int);
            let pi1 = pubs.take(i + 1);
            assert(pi1.drop_last() =~= pi0);
            assert forall|t: TrackId|
                pi1.contains(t) <==> pi0.contains(t) || t
                    == track_id by {
                if pi1.contains(t) {
                    let q = choose|q: int| 0 <= q < pi1.len() && pi1[q] == t;
                    if q < i {
                        assert(pi0[q] == t);
                    }
                }
                if pi0.contains(t) {
                    let q = choose|q: int|
                        0 <= q < pi0.len() && pi0[q] == t;
                    assert(pi1[q] == t);
                }
                if t == track_id {
                    assert(pi1[i as int] == t);
                }
            }
            assert forall|s: SessionId, t: TrackId|
                notices@.contains((s, t)) <==> pi1.contains(t) && g.edges.contains(
                    (s, t, session_id),
                ) by {
                assert(pi1.contains(t) <==> pi0.contains(t) || t == track_id);
                assert(before_notices.contains((s, t)) <==> pi0.contains(t) && g.edges.contains(
                    (s, t, session_id),
                ));
                assert(notices@.contains((s, t)) <==> before_notices.contains((s, t)) || (t
                    == track_id && subs.contains(s)));
                assert(subs.contains(s) <==> g.subscribers(track_id).contains(s));
                if g.edges.contains((s, track_id, session_id)) {
                    assert(g.subscribers(track_id).contains(s));
                }
                if g.subscribers(track_id).contains(s) {
                    let p = choose|p: SessionId| g.edges.contains((s, track_id, p));
                    assert(g.edges.contains((s, track_id, p)));
                    assert(g.tracks.contains((track_id, p)));
                    assert(g.tracks.contains((track_id, session_id)));
                    assert(p == session_id);
                }
            }
            assert forall|t: TrackId| #[trigger]
                selector@.contains_key(t) <==> m.contains_key(t) && !pi1.contains(
                    t,
                ) by {
                assert(before_sel.contains_key(t) <==> m.contains_key(t) && !pi0.contains(t));
            }
            assert forall|t: TrackId| #[trigger] selector@.contains_key(t) implies selector@[t]
                == m[t] by {
                assert(before_sel.contains_key(t));
            }
        }
        i = i + 1;
    }
    assert(published@.take(i as int) =~= published@);
    let ghost mid = selector@;
    let mut k: usize = 0;
    while k < subscribed.len()
        invariant
            k <= subscribed@.len(),
            registry.wf(),
            registry@ == g,
            selector.wf(),
            selector@.dom() == mid.dom(),
            forall|t: TrackId| #[trigger]
                selector@.contains_key(t) ==> selector@[t] == (if subscribed@.take(
                    k as int,
                ).contains(t) {
                    TrackView { selections: mid[t].selections.remove(session_id), ..mid[t] }
                } else {
                    mid[t]
                }),
        decreases subscribed@.len() - k,
    {
        let track_id = subscribed[k];
        let ghost before_sel = selector@;
        selector.drop_selection(track_id, session_id);
        proof {
            let subs = subscribed@;
            let sk0 = subs.take(k as int);
            let sk1 = subs.take(k + 1);
            assert(sk1.drop_last() =~= sk0);
            assert(selector@.dom() =~= mid.dom());
            assert forall|t: TrackId| #[trigger] selector@.contains_key(t) implies selector@[t] == (
            if sk1.contains(t) {
                TrackView { selections: mid[t].selections.remove(session_id), ..mid[t] }
            } else {
                mid[t]
            }) by {
                assert(before_sel.contains_key(t));
                if sk0.contains(t) {
                    let q = choose|q: int|
                        0 <= q < sk0.len() && sk0[q] == t;
                    assert(sk1[q] == t);
                }
                if t == track_id {
                    assert(sk1[k as int] == t);
                    assert(mid[t].selections.remove(session_id).remove(session_id)
                        =~= mid[t].selections.remove(session_id));
                }
                if sk1.contains(t) && t != track_id {
                    let q = choose|q: int|
                        0 <= q < sk1.len() && sk1[q] == t;
                    assert(sk0[q] == t);
                }
            }
        }
        k = k + 1;
    }
    assert(subscribed@.take(k as int) =~= subscribed@);
    match registry.remove_session(session_id) {
        Ok(()) => {
            proof {
                assert(selector@ =~= selector_without(
                    m,
                    g.published_tracks(session_id),
                    g.subscribed_tracks(session_id),
                    session_id,
                ));
                assert forall|s: SessionId, t: TrackId|
                    notices@.contains((s, t)) <==> g.edges.contains((s, t, session_id)) by {
                    if g.edges.contains((s, t, session_id)) {
                        assert(g.tracks.contains((t, session_id)));
                    }
                }
            }
            Ok(notices)
        },
        Err(e) => Err(e),
    }
}

} // verus!
