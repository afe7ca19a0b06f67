//! The session registry: participants, published tracks and the
//! subscriptions between them, held in one table and joined by ids.
use vstd::prelude::*;
use crate::error::{MediaFault, SessionFault, SfuError};
use crate::feedback::{SessionId, TrackId};
use crate::media::{MediaTrack, TrackKind};

verus! {

/// Bandwidth of a participant as the registry records it.
#[derive(Clone, Copy, Debug, PartialEq, Eq, Structural)]
pub struct BandwidthInfo {
    pub upload_bandwidth: u32,
    pub download_bandwidth: u32,
    pub last_update_ms: u64,
}

/// Name and parameters of a codec.
pub struct CodecInfo {
    pub name: String,
    pub parameters: Vec<(String, String)>,
}

/// Receiving end of a subscription.
#[derive(Clone, Copy, Debug, PartialEq, Eq, Structural)]
pub struct MediaTrackReceiver {}

/// A connected client.
pub struct Participant {
    pub session_id: SessionId,
    /// Identity of the remote node, as the transport gave it.
    pub node_id: Vec<u8>,
    pub bandwidth: BandwidthInfo,
    pub last_activity_ms: u64,
}

/// A track that a participant publishes.
pub struct PublishedTrack {
    pub track_id: TrackId,
    pub publisher_id: SessionId,
    pub kind: TrackKind,
    pub codec: CodecInfo,
    pub current_bitrate: u32,
}

/// A subscription of one participant to one track.
#[derive(Clone, Copy, Debug, PartialEq, Eq, Structural)]
pub struct SubscribedTrack {
    pub subscriber_id: SessionId,
    pub track_id: TrackId,
    pub publisher_id: SessionId,
    pub receiver: MediaTrackReceiver,
}

/// The subscription graph as sets: the live sessions, each published track
/// with its publisher, each subscription as (subscriber, track, publisher),
/// and the ids that will be given out next.
pub ghost struct GraphView {
    pub sessions: Set<SessionId>,
    pub tracks: Set<(TrackId, SessionId)>,
    pub edges: Set<(SessionId, TrackId, SessionId)>,
    pub next_session_id: SessionId,
    pub next_track_id: TrackId,
}

impl GraphView {
    /// The tracks that `s` is subscribed to.
    pub open spec fn subscribed_tracks(self, s: SessionId) -> Set<TrackId> {
        Set::new(|t: TrackId| exists|p: SessionId| self.edges.contains((s, t, p)))
    }

    /// The subscribers of track `t`.
    pub open spec fn subscribers(self, t: TrackId) -> Set<SessionId> {
        Set::new(|s: SessionId| exists|p: SessionId| self.edges.contains((s, t, p)))
    }

    /// The tracks that `s` publishes.
    pub open spec fn published_tracks(self, s: SessionId) -> Set<TrackId> {
        Set::new(|t: TrackId| self.tracks.contains((t, s)))
    }

    /// Whether some participant publishes track `t`.
    pub open spec fn has_track(self, t: TrackId) -> bool {
        exists|p: SessionId| self.tracks.contains((t, p))
    }

    /// The graph is consistent: every track has one publisher, who is live;
    /// every subscription joins a live subscriber to an existing track of
    /// the publisher it names, who is someone else; and no id in use will be
    /// given out again.
    pub open spec fn valid(self) -> bool {
        &&& forall|s: SessionId| #[trigger] self.sessions.contains(s) ==> s < self.next_session_id
        &&& forall|t: TrackId, p: SessionId| #[trigger]
            self.tracks.contains((t, p)) ==> self.sessions.contains(p) && t < self.next_track_id
        &&& forall|t: TrackId, p: SessionId, q: SessionId|
            #![trigger self.tracks.contains((t, p)), self.tracks.contains((t, q))]
            self.tracks.contains((t, p)) && self.tracks.contains((t, q)) ==> p == q
        &&& forall|s: SessionId, t: TrackId, p: SessionId| #[trigger]
            self.edges.contains((s, t, p)) ==> self.sessions.contains(s) && self.tracks.contains(
                (t, p),
            ) && s != p
    }

    /// The graph after `s` gave up its subscription to track `t`.
    pub open spec fn without_subscription(self, s: SessionId, t: TrackId) -> GraphView {
        GraphView {
            edges: Set::new(
                |e: (SessionId, TrackId, SessionId)|
                    self.edges.contains(e) && !(e.0 == s && e.1 == t),
            ),
            ..self
        }
    }

    /// The graph after session `x` left: its tracks are gone, and so is
    /// every subscription that it held or that others held to its tracks.
    pub open spec fn without_session(self, x: SessionId) -> GraphView {
        GraphView {
            sessions: self.sessions.remove(x),
            tracks: Set::new(|k: (TrackId, SessionId)| self.tracks.contains(k) && k.1 != x),
            edges: Set::new(
                |e: (SessionId, TrackId, SessionId)| self.edges.contains(e) && e.0 != x && e.2 != x,
            ),
            ..self
        }
    }
}

/// In a consistent graph, a track that `s` is subscribed to is published by
/// a live participant other than `s`, and has `s` among its subscribers; and
/// every subscriber of a track is a live participant.
pub proof fn lemma_subscriptions_consistent(g: GraphView, s: SessionId, t: TrackId)
    requires
        g.valid(),
    ensures
        g.subscribed_tracks(s).contains(t) <==> g.subscribers(t).contains(s),
        g.subscribed_tracks(s).contains(t) ==> g.sessions.contains(s) && exists|p: SessionId|
            #![trigger g.tracks.contains((t, p))]
            g.tracks.contains((t, p)) && g.sessions.contains(p) && p != s
                && !g.subscribers(t).contains(p),
{
    if g.subscribed_tracks(s).contains(t) {
        let p = choose|p: SessionId| g.edges.contains((s, t, p));
        assert(g.tracks.contains((t, p)));
        if g.subscribers(t).contains(p) {
            let q = choose|q: SessionId| g.edges.contains((p, t, q));
            assert(g.tracks.contains((t, q)));
        }
    }
}

/// In a consistent graph the ids that will be given out next are not in use.
pub proof fn lemma_next_ids_fresh(g: GraphView)
    requires
        g.valid(),
    ensures
        !g.sessions.contains(g.next_session_id),
        !g.has_track(g.next_track_id),
        forall|s: SessionId, t: TrackId, p: SessionId| #[trigger]
            g.edges.contains((s, t, p)) ==> s != g.next_session_id && p != g.next_session_id && t
                != g.next_track_id,
{
    if g.has_track(g.next_track_id) {
        let p = choose|p: SessionId| g.tracks.contains((g.next_track_id, p));
        assert(g.tracks.contains((g.next_track_id, p)));
    }
    assert forall|s: SessionId, t: TrackId, p: SessionId| #[trigger]
        g.edges.contains((s, t, p)) implies s != g.next_session_id && p != g.next_session_id && t
        != g.next_track_id by {
        assert(g.tracks.contains((t, p)));
    }
}

/// After a session left a consistent graph, the graph is consistent, no
/// subscription refers to a track that the session owned, and no track has
/// the session among its subscribers.
pub proof fn lemma_removal_cascades(g: GraphView, x: SessionId)
    requires
        g.valid(),
    ensures
        g.without_session(x).valid(),
        !g.without_session(x).sessions.contains(x),
        forall|t: TrackId| !(#[trigger] g.without_session(x).subscribers(t)).contains(x),
        forall|t: TrackId| !g.without_session(x).tracks.contains((t, x)),
        forall|s: SessionId, t: TrackId| #[trigger]
            g.without_session(x).subscribed_tracks(s).contains(t) ==> !g.tracks.contains((t, x)),
{
    let h = g.without_session(x);
    assert forall|s: SessionId, t: TrackId| #[trigger]
        h.subscribed_tracks(s).contains(t) implies !g.tracks.contains((t, x)) by {
        let p = choose|p: SessionId| h.edges.contains((s, t, p));
        assert(g.edges.contains((s, t, p)));
        assert(g.tracks.contains((t, p)));
    }
}

/// Whether a participant of the list has the session id.
pub open spec fn seq_has_session(ps: Seq<Participant>, s: SessionId) -> bool {
    exists|i: int| 0 <= i < ps.len() && (#[trigger] ps[i]).session_id == s
}

/// Whether a participant of the list has the session id and was last active at `t`.
pub open spec fn seq_activity(ps: Seq<Participant>, s: SessionId, t: u64) -> bool {
    exists|i: int|
        0 <= i < ps.len() && (#[trigger] ps[i]).session_id == s && ps[i].last_activity_ms == t
}

/// No two participants of the list share a session id.
pub open spec fn ids_unique(ps: Seq<Participant>) -> bool {
    forall|i: int, j: int|
        0 <= i < j < ps.len() ==> (#[trigger] ps[i]).session_id != (#[trigger] ps[j]).session_id
}

/// The last-activity times without those of session `x`.
pub open spec fn activity_without(a: Set<(SessionId, u64)>, x: SessionId) -> Set<(SessionId, u64)> {
    Set::new(|k: (SessionId, u64)| a.contains(k) && k.0 != x)
}

/// Whether a track of the list has the id and the publisher.
pub open spec fn seq_has_track(ts: Seq<PublishedTrack>, t: TrackId, p: SessionId) -> bool {
    exists|i: int|
        0 <= i < ts.len() && (#[trigger] ts[i]).track_id == t && ts[i].publisher_id == p
}

/// Whether a track of the list has the id, the publisher and the kind.
pub open spec fn seq_has_record(ts: Seq<PublishedTrack>, t: TrackId, p: SessionId, k: TrackKind) -> bool {
    exists|i: int|
        0 <= i < ts.len() && (#[trigger] ts[i]).track_id == t && ts[i].publisher_id == p
            && ts[i].kind == k
}

/// The track records without those of publisher `x`.
pub open spec fn records_without(a: Set<(TrackId, SessionId, TrackKind)>, x: SessionId) -> Set<
    (TrackId, SessionId, TrackKind),
> {
    Set::new(|r: (TrackId, SessionId, TrackKind)| a.contains(r) && r.1 != x)
}

/// Whether a subscription of the list joins the subscriber to the track of the publisher.
pub open spec fn seq_has_edge(es: Seq<SubscribedTrack>, s: SessionId, t: TrackId, p: SessionId) -> bool {
    exists|i: int|
        0 <= i < es.len() && (#[trigger] es[i]).subscriber_id == s && es[i].track_id == t
            && es[i].publisher_id == p
}

/// The registry: the single owner of participants, tracks and
/// subscriptions.
pub struct DefaultSessionManager {
    participants: Vec<Participant>,
    tracks: Vec<PublishedTrack>,
    subscriptions: Vec<SubscribedTrack>,
    next_session_id: SessionId,
    next_track_id: TrackId,
}

impl View for DefaultSessionManager {
    type V = GraphView;

    closed spec fn view(&self) -> GraphView {
        GraphView {
            sessions: Set::new(|s: SessionId| seq_has_session(self.participants@, s)),
            tracks: Set::new(|k: (TrackId, SessionId)| seq_has_track(self.tracks@, k.0, k.1)),
            edges: Set::new(
                |e: (SessionId, TrackId, SessionId)|
                    seq_has_edge(self.subscriptions@, e.0, e.1, e.2),
            ),
            next_session_id: self.next_session_id,
            next_track_id: self.next_track_id,
        }
    }
}

impl DefaultSessionManager {
    /// The registry's graph is consistent and no session is held twice.
    pub closed spec fn wf(&self) -> bool {
        self@.valid() && ids_unique(self.participants@)
    }

    /// The time of the last activity of each live session, as (session,
    /// milliseconds) pairs.
    pub closed spec fn activity(&self) -> Set<(SessionId, u64)> {
        Set::new(|k: (SessionId, u64)| seq_activity(self.participants@, k.0, k.1))
    }

    /// Each published track with its publisher and its kind.
    pub closed spec fn records(&self) -> Set<(TrackId, SessionId, TrackKind)> {
        Set::new(
            |r: (TrackId, SessionId, TrackKind)| seq_has_record(self.tracks@, r.0, r.1, r.2),
        )
    }

    /// The published tracks of the graph are those of the records.
    pub proof fn lemma_records(&self)
        ensures
            forall|t: TrackId, p: SessionId|
                self@.tracks.contains((t, p)) <==> exists|k: TrackKind|
                    self.records().contains((t, p, k)),
    {
        let ts = self.tracks@;
        assert forall|t: TrackId, p: SessionId|
            self@.tracks.contains((t, p)) <==> exists|k: TrackKind|
                self.records().contains((t, p, k)) by {
            if self@.tracks.contains((t, p)) {
                let i = choose|i: int|
                    0 <= i < ts.len() && (#[trigger] ts[i]).track_id == t && ts[i].publisher_id
                        == p;
                assert(seq_has_record(ts, t, p, ts[i].kind));
                assert(self.records().contains((t, p, ts[i].kind)));
            }
            if exists|k: TrackKind| self.records().contains((t, p, k)) {
                let k = choose|k: TrackKind| self.records().contains((t, p, k));
                assert(seq_has_record(ts, t, p, k));
                let i = choose|i: int|
                    0 <= i < ts.len() && (#[trigger] ts[i]).track_id == t && ts[i].publisher_id
                        == p && ts[i].kind == k;
                assert(ts[i].track_id == t);
            }
        }
    }

    /// What a well-formed registry holds: a consistent graph, and one time
    /// of last activity for each live session.
    pub proof fn lemma_wf(&self)
        requires
            self.wf(),
        ensures
            self@.valid(),
            forall|s: SessionId|
                self@.sessions.contains(s) <==> exists|t: u64| self.activity().contains((s, t)),
            forall|s: SessionId, t: u64, u: u64|
                self.activity().contains((s, t)) && self.activity().contains((s, u)) ==> t == u,
    {
        let ps = self.participants@;
        assert forall|s: SessionId|
            self@.sessions.contains(s) <==> exists|t: u64| self.activity().contains((s, t)) by {
            if self@.sessions.contains(s) {
                let i = choose|i: int| 0 <= i < ps.len() && (#[trigger] ps[i]).session_id == s;
                assert(seq_activity(ps, s, ps[i].last_activity_ms));
                assert(self.activity().contains((s, ps[i].last_activity_ms)));
            }
            if exists|t: u64| self.activity().contains((s, t)) {
                let t = choose|t: u64| self.activity().contains((s, t));
                assert(seq_activity(ps, s, t));
            }
        }
        assert forall|s: SessionId, t: u64, u: u64|
            self.activity().contains((s, t)) && self.activity().contains((s, u)) implies t
            == u by {
            let i = choose|i: int|
                0 <= i < ps.len() && (#[trigger] ps[i]).session_id == s && ps[i].last_activity_ms
                    == t;
            let j = choose|j: int|
                0 <= j < ps.len() && (#[trigger] ps[j]).session_id == s && ps[j].last_activity_ms
                    == u;
            if i < j {
                assert(ps[i].session_id != ps[j].session_id);
            } else if j < i {
                assert(ps[j].session_id != ps[i].session_id);
            }
        }
    }

    /// An empty registry; ids start at 1.
    pub fn new() -> (m: DefaultSessionManager)
        ensures
            m.wf(),
            m@.sessions == Set::<SessionId>::empty(),
            m@.tracks == Set::<(TrackId, SessionId)>::empty(),
            m@.edges == Set::<(SessionId, TrackId, SessionId)>::empty(),
            m@.next_session_id == 1,
            m@.next_track_id == 1,
            m.activity() == Set::<(SessionId, u64)>::empty(),
            m.records() == Set::<(TrackId, SessionId, TrackKind)>::empty(),
    {
        let m = DefaultSessionManager {
            participants: Vec::new(),
            tracks: Vec::new(),
            subscriptions: Vec::new(),
            next_session_id: 1,
            next_track_id: 1,
        };
        assert(m@.sessions =~= Set::<SessionId>::empty());
        assert(m@.tracks =~= Set::<(TrackId, SessionId)>::empty());
        assert(m@.edges =~= Set::<(SessionId, TrackId, SessionId)>::empty());
        assert(m.activity() =~= Set::<(SessionId, u64)>::empty());
        assert(m.records() =~= Set::<(TrackId, SessionId, TrackKind)>::empty());
        m
    }

    fn find_session(&self, s: SessionId) -> (r: Option<usize>)
        ensures
            match r {
                Some(i) => i < self.participants@.len() && self.participants@[i as int].session_id
                    == s && self@.sessions.contains(s),
                None => !self@.sessions.contains(s),
            },
    {
        let mut i: usize = 0;
        while i < self.participants.len()
            invariant
                i <= self.participants@.len(),
                forall|k: int| 0 <= k < i ==> (#[trigger] self.participants@[k]).session_id != s,
            decreases self.participants@.len() - i,
        {
            if self.participants[i].session_id == s {
                return Some(i);
            }
            i = i + 1;
        }
        None
    }

    fn find_track(&self, t: TrackId) -> (r: Option<usize>)
        ensures
            match r {
                Some(i) => i < self.tracks@.len() && self.tracks@[i as int].track_id == t
                    && self@.tracks.contains((t, self.tracks@[i as int].publisher_id)),
                None => !self@.has_track(t),
            },
    {
        let mut i: usize = 0;
        while i < self.tracks.len()
            invariant
                i <= self.tracks@.len(),
                forall|k: int| 0 <= k < i ==> (#[trigger] self.tracks@[k]).track_id != t,
            decreases self.tracks@.len() - i,
        {
            if self.tracks[i].track_id == t {
                return Some(i);
            }
            i = i + 1;
        }
        None
    }

    fn find_subscription(&self, s: SessionId, t: TrackId) -> (r: Option<usize>)
        ensures
            match r {
                Some(i) => i < self.subscriptions@.len() && self.subscriptions@[i as int].subscriber_id
                    == s && self.subscriptions@[i as int].track_id == t && self@.edges.contains(
                    (s, t, self.subscriptions@[i as int].publisher_id),
                ),
                None => !self@.subscribed_tracks(s).contains(t),
            },
    {
        let mut i: usize = 0;
        while i < self.subscriptions.len()
            invariant
                i <= self.subscriptions@.len(),
                forall|k: int|
                    0 <= k < i ==> !((#[trigger] self.subscriptions@[k]).subscriber_id == s
                        && self.subscriptions@[k].track_id == t),
            decreases self.subscriptions@.len() - i,
        {
            if self.subscriptions[i].subscriber_id == s && self.subscriptions[i].track_id == t {
                return Some(i);
            }
            i = i + 1;
        }
        None
    }

    /// Admits a participant under a fresh session id.
    pub fn create_session(&mut self, node_id: Vec<u8>, now_ms: u64) -> (r: Result<
        SessionId,
        SfuError,
    >)
        requires
            old(self).wf(),
        ensures
            final(self).wf(),
            final(self).records() == old(self).records(),
            match r {
                Ok(id) => id == old(self)@.next_session_id && id < u64::MAX && final(self)@ == (
                GraphView {
                    sessions: old(self)@.sessions.insert(id),
                    next_session_id: (id + 1) as u64,
                    ..old(self)@
                }) && final(self).activity() == old(self).activity().insert((id, now_ms)),
                Err(e) => old(self)@.next_session_id == u64::MAX && e == SfuError::Session(
                    SessionFault::IdsExhausted,
                ) && final(self)@ == old(self)@ && final(self).activity() == old(self).activity(),
            },
    {
        if self.next_session_id == u64::MAX {
            return Err(SfuError::Session(SessionFault::IdsExhausted));
        }
        let id = self.next_session_id;
        let participant = Participant {
            session_id: id,
            node_id,
            bandwidth: BandwidthInfo {
                upload_bandwidth: 0,
                download_bandwidth: 0,
                last_update_ms: now_ms,
            },
            last_activity_ms: now_ms,
        };
        self.participants.push(participant);
        self.next_session_id = id + 1;
        proof {
            let before = old(self).participants@;
            let after = self.participants@;
            assert forall|s: SessionId| seq_has_session(after, s) <==> (s == id || seq_has_session(
                before,
                s,
            )) by {
                if seq_has_session(before, s) {
                    let i = choose|i: int| 0 <= i < before.len() && (#[trigger] before[i]).session_id == s;
                    assert(after[i].session_id == s);
                }
                if s == id {
                    assert(after[before.len() as int].session_id == s);
                }
            }
            assert(self@.sessions =~= old(self)@.sessions.insert(id));
            assert(self@.tracks =~= old(self)@.tracks);
            assert(self@.edges =~= old(self)@.edges);
            assert forall|s: SessionId, t: u64|
                seq_activity(after, s, t) <==> ((s == id && t == now_ms) || seq_activity(
                    before,
                    s,
                    t,
                )) by {
                if seq_activity(before, s, t) {
                    let i = choose|i: int|
                        0 <= i < before.len() && (#[trigger] before[i]).session_id == s
                            && before[i].last_activity_ms == t;
                    assert(after[i].session_id == s);
                }
                if s == id && t == now_ms {
                    assert(after[before.len() as int].session_id == s);
                }
                if seq_activity(after, s, t) {
                    let i = choose|i: int|
                        0 <= i < after.len() && (#[trigger] after[i]).session_id == s
                            && after[i].last_activity_ms == t;
                    if i < before.len() {
                        assert(before[i].session_id == s);
                    }
                }
            }
            assert(self.activity() =~= old(self).activity().insert((id, now_ms)));
            assert forall|i: int, j: int| 0 <= i < j < after.len() implies (#[trigger] after[i]).session_id != (#[trigger] after[j]).session_id by {
                assert(before[i].session_id == after[i].session_id);
                assert(old(self)@.sessions.contains(before[i].session_id));
                if j < before.len() {
                    assert(before[j].session_id == after[j].session_id);
                }
            }
        }
        Ok(id)
    }

    /// The participant of a session.
    pub fn get_participant(&self, session_id: SessionId) -> (r: Result<&Participant, SfuError>)
        ensures
            match r {
                Ok(p) => self@.sessions.contains(session_id) && p.session_id == session_id
                    && self.activity().contains((session_id, p.last_activity_ms)),
                Err(e) => !self@.sessions.contains(session_id) && e == SfuError::Session(
                    SessionFault::NotFound,
                ),
            },
    {
        match self.find_session(session_id) {
            Some(i) => Ok(&self.participants[i]),
            None => Err(SfuError::Session(SessionFault::NotFound)),
        }
    }

    /// Removes a session: its tracks, its subscriptions, and every
    /// subscription of others to its tracks go with it.
    pub fn remove_session(&mut self, session_id: SessionId) -> (r: Result<(), SfuError>)
        requires
            old(self).wf(),
        ensures
            final(self).wf(),
            match r {
                Ok(()) => old(self)@.sessions.contains(session_id) && final(self)@ == old(
                    self,
                )@.without_session(session_id) && final(self).activity() == activity_without(
                    old(self).activity(),
                    session_id,
                ) && final(self).records() == records_without(old(self).records(), session_id),
                Err(e) => !old(self)@.sessions.contains(session_id) && e == SfuError::Session(
                    SessionFault::NotFound,
                ) && final(self)@ == old(self)@ && final(self).activity() == old(self).activity()
                    && final(self).records() == old(self).records(),
            },
    {
        if self.find_session(session_id).is_none() {
            return Err(SfuError::Session(SessionFault::NotFound));
        }
        drop_participant(&mut self.participants, session_id);
        drop_tracks_of(&mut self.tracks, session_id);
        drop_edges_of(&mut self.subscriptions, session_id);
        proof {
            let want = old(self)@.without_session(session_id);
            assert(self@.sessions =~= want.sessions);
            assert(self@.tracks =~= want.tracks);
            assert(self@.edges =~= want.edges);
            assert(self.activity() =~= activity_without(old(self).activity(), session_id));
            assert(self.records() =~= records_without(old(self).records(), session_id));
            lemma_removal_cascades(old(self)@, session_id);
        }
        Ok(())
    }

    /// Records a track that a live session publishes, under a fresh track
    /// id.
    pub fn register_published_track(&mut self, session_id: SessionId, track: MediaTrack) -> (r:
        Result<TrackId, SfuError>)
        requires
            old(self).wf(),
        ensures
            final(self).wf(),
            final(self).activity() == old(self).activity(),
            match r {
                Ok(id) => {
                    &&& old(self)@.sessions.contains(session_id)
                    &&& id == old(self)@.next_track_id
                    &&& id < u64::MAX
                    &&& final(self)@ == (GraphView {
                        tracks: old(self)@.tracks.insert((id, session_id)),
                        next_track_id: (id + 1) as u64,
                        ..old(self)@
                    })
                    &&& final(self).records() == old(self).records().insert(
                        (id, session_id, track.spec_kind()),
                    )
                },
                Err(e) => final(self)@ == old(self)@ && final(self).records() == old(
                    self,
                ).records() && e == (if !old(self)@.sessions.contains(
                    session_id,
                ) {
                    SfuError::Session(SessionFault::NotFound)
                } else {
                    SfuError::Session(SessionFault::IdsExhausted)
                }) && (!old(self)@.sessions.contains(session_id) || old(self)@.next_track_id
                    == u64::MAX),
            },
    {
        if self.find_session(session_id).is_none() {
            return Err(SfuError::Session(SessionFault::NotFound));
        }
        if self.next_track_id == u64::MAX {
            return Err(SfuError::Session(SessionFault::IdsExhausted));
        }
        let id = self.next_track_id;
        let kind = track.kind();
        let name = track.codec_name().to_owned();
        let parameters = track.codec_parameters().clone();
        self.tracks.push(
            PublishedTrack {
                track_id: id,
                publisher_id: session_id,
                kind,
                codec: CodecInfo { name, parameters },
                current_bitrate: 0,
            },
        );
        self.next_track_id = id + 1;
        proof {
            let before = old(self).tracks@;
            let after = self.tracks@;
            assert forall|t: TrackId, p: SessionId|
                seq_has_track(after, t, p) <==> ((t == id && p == session_id) || seq_has_track(
                    before,
                    t,
                    p,
                )) by {
                if seq_has_track(before, t, p) {
                    let i = choose|i: int|
                        0 <= i < before.len() && (#[trigger] before[i]).track_id == t
                            && before[i].publisher_id == p;
                    assert(after[i].track_id == t);
                }
                if t == id && p == session_id {
                    assert(after[before.len() as int].track_id == t);
                }
            }
            assert(self@.sessions =~= old(self)@.sessions);
            assert(self@.tracks =~= old(self)@.tracks.insert((id, session_id)));
            assert(self@.edges =~= old(self)@.edges);
            assert forall|t: TrackId, p: SessionId, k: TrackKind|
                seq_has_record(after, t, p, k) <==> ((t == id && p == session_id && k == kind)
                    || seq_has_record(before, t, p, k)) by {
                if seq_has_record(before, t, p, k) {
                    let i = choose|i: int|
                        0 <= i < before.len() && (#[trigger] before[i]).track_id == t
                            && before[i].publisher_id == p && before[i].kind == k;
                    assert(after[i].track_id == t);
                }
                if t == id && p == session_id && k == kind {
                    assert(after[before.len() as int].track_id == t);
                }
                if seq_has_record(after, t, p, k) {
                    let i = choose|i: int|
                        0 <= i < after.len() && (#[trigger] after[i]).track_id == t
                            && after[i].publisher_id == p && after[i].kind == k;
                    if i < before.len() {
                        assert(before[i].track_id == t);
                    }
                }
            }
            assert(self.records() =~= old(self).records().insert((id, session_id, kind)));
            assert forall|t: TrackId, p: SessionId, q: SessionId|
                #![trigger self@.tracks.contains((t, p)), self@.tracks.contains((t, q))]
                self@.tracks.contains((t, p)) && self@.tracks.contains((t, q)) implies p == q by {
                if t == id {
                    assert(!old(self)@.tracks.contains((t, p)));
                    assert(!old(self)@.tracks.contains((t, q)));
                }
            }
        }
        Ok(id)
    }

    /// Subscribes `subscriber_id` to track `track_id` of `publisher_id`.
    /// Both sessions must be live, they must differ, and the track must be
    /// one of the publisher's. Subscribing again changes nothing.
    pub fn register_subscribed_track(
        &mut self,
        subscriber_id: SessionId,
        publisher_id: SessionId,
        track_id: TrackId,
    ) -> (r: Result<(), SfuError>)
        requires
            old(self).wf(),
        ensures
            final(self).wf(),
            final(self).activity() == old(self).activity(),
            final(self).records() == old(self).records(),
            r == subscribe_outcome(old(self)@, subscriber_id, publisher_id, track_id),
            final(self)@ == (if r.is_ok() {
                GraphView {
                    edges: old(self)@.edges.insert((subscriber_id, track_id, publisher_id)),
                    ..old(self)@
                }
            } else {
                old(self)@
            }),
    {
        if self.find_session(publisher_id).is_none() || self.find_session(subscriber_id).is_none() {
            return Err(SfuError::Session(SessionFault::NotFound));
        }
        if subscriber_id == publisher_id {
            return Err(SfuError::Session(SessionFault::InvalidSelf));
        }
        match self.find_track(track_id) {
            None => {
                return Err(SfuError::Media(MediaFault::TrackNotFound));
            },
            Some(i) => {
                if self.tracks[i].publisher_id != publisher_id {
                    assert(!self@.tracks.contains((track_id, publisher_id)));
                    return Err(SfuError::Media(MediaFault::TrackNotFound));
                }
            },
        }
        match self.find_subscription(subscriber_id, track_id) {
            Some(i) => {
                let ghost p = self.subscriptions@[i as int].publisher_id;
                assert(self@.tracks.contains((track_id, p)));
                assert(self@.edges =~= old(self)@.edges.insert(
                    (subscriber_id, track_id, publisher_id),
                ));
                Ok(())
            },
            None => {
                self.subscriptions.push(
                    SubscribedTrack {
                        subscriber_id,
                        track_id,
                        publisher_id,
                        receiver: MediaTrackReceiver {  },
                    },
                );
                proof {
                    let before = old(self).subscriptions@;
                    let after = self.subscriptions@;
                    assert forall|s: SessionId, t: TrackId, p: SessionId|
                        seq_has_edge(after, s, t, p) <==> ((s == subscriber_id && t == track_id
                            && p == publisher_id) || seq_has_edge(before, s, t, p)) by {
                        if seq_has_edge(before, s, t, p) {
                            let i = choose|i: int|
                                0 <= i < before.len() && (#[trigger] before[i]).subscriber_id == s
                                    && before[i].track_id == t && before[i].publisher_id == p;
                            assert(after[i].subscriber_id == s);
                        }
                        if s == subscriber_id && t == track_id && p == publisher_id {
                            assert(after[before.len() as int].subscriber_id == s);
                        }
                    }
                    assert(self@.sessions =~= old(self)@.sessions);
                    assert(self@.tracks =~= old(self)@.tracks);
                    assert(self@.edges =~= old(self)@.edges.insert(
                        (subscriber_id, track_id, publisher_id),
                    ));
                }
                Ok(())
            },
        }
    }

    /// Ends the subscription of `subscriber_id` to `track_id`.
    pub fn unregister_subscribed_track(&mut self, subscriber_id: SessionId, track_id: TrackId) -> (r:
        Result<(), SfuError>)
        requires
            old(self).wf(),
        ensures
            final(self).wf(),
            final(self).activity() == old(self).activity(),
            final(self).records() == old(self).records(),
            r == (if !old(self)@.sessions.contains(subscriber_id) {
                Err::<(), SfuError>(SfuError::Session(SessionFault::NotFound))
            } else if !old(self)@.subscribed_tracks(subscriber_id).contains(track_id) {
                Err::<(), SfuError>(SfuError::Media(MediaFault::NotSubscribed))
            } else {
                Ok::<(), SfuError>(())
            }),
            final(self)@ == (if r.is_ok() {
                old(self)@.without_subscription(subscriber_id, track_id)
            } else {
                old(self)@
            }),
    {
        if self.find_session(subscriber_id).is_none() {
            return Err(SfuError::Session(SessionFault::NotFound));
        }
        if self.find_subscription(subscriber_id, track_id).is_none() {
            return Err(SfuError::Media(MediaFault::NotSubscribed));
        }
        drop_subscription(&mut self.subscriptions, subscriber_id, track_id);
        proof {
            let want = old(self)@.without_subscription(subscriber_id, track_id);
            assert(self@.sessions =~= want.sessions);
            assert(self@.tracks =~= want.tracks);
            assert(self@.edges =~= want.edges);
        }
        Ok(())
    }
}

impl DefaultSessionManager {
    /// Records that a session was active at `now_ms`.
    pub fn touch(&mut self, session_id: SessionId, now_ms: u64) -> (r: Result<(), SfuError>)
        requires
            old(self).wf(),
        ensures
            final(self).wf(),
            final(self)@ == old(self)@,
            final(self).records() == old(self).records(),
            match r {
                Ok(()) => old(self)@.sessions.contains(session_id) && final(self).activity()
                    == activity_without(old(self).activity(), session_id).insert(
                    (session_id, now_ms),
                ),
                Err(e) => !old(self)@.sessions.contains(session_id) && e == SfuError::Session(
                    SessionFault::NotFound,
                ) && final(self).activity() == old(self).activity(),
            },
    {
        match self.find_session(session_id) {
            None => Err(SfuError::Session(SessionFault::NotFound)),
            Some(i) => {
                let mut p = self.participants.remove(i);
                p.last_activity_ms = now_ms;
                self.participants.insert(i, p);
                proof {
                    let before = old(self).participants@;
                    let after = self.participants@;
                    assert(after.len() == before.len());
                    assert forall|k: int| 0 <= k < before.len() implies (#[trigger] after[k]).session_id
                        == before[k].session_id && (k != i ==> after[k] == before[k]) by {}
                    assert(after[i as int].last_activity_ms == now_ms);
                    assert forall|s: SessionId|
                        seq_has_session(after, s) <==> seq_has_session(before, s) by {
                        if seq_has_session(after, s) {
                            let k = choose|k: int|
                                0 <= k < after.len() && (#[trigger] after[k]).session_id == s;
                            assert(before[k].session_id == s);
                        }
                        if seq_has_session(before, s) {
                            let k = choose|k: int|
                                0 <= k < before.len() && (#[trigger] before[k]).session_id == s;
                            assert(after[k].session_id == s);
                        }
                    }
                    assert(self@.sessions =~= old(self)@.sessions);
                    assert forall|s: SessionId, t: u64|
                        seq_activity(after, s, t) <==> ((s == session_id && t == now_ms) || (s
                            != session_id && seq_activity(before, s, t))) by {
                        if seq_activity(after, s, t) {
                            let k = choose|k: int|
                                0 <= k < after.len() && (#[trigger] after[k]).session_id == s
                                    && after[k].last_activity_ms == t;
                            if k != i {
                                assert(before[k].session_id == s);
                                if k < i {
                                    assert(before[k].session_id != before[i as int].session_id);
                                } else {
                                    assert(before[i as int].session_id != before[k].session_id);
                                }
                            }
                        }
                        if s != session_id && seq_activity(before, s, t) {
                            let k = choose|k: int|
                                0 <= k < before.len() && (#[trigger] before[k]).session_id == s
                                    && before[k].last_activity_ms == t;
                            assert(after[k].session_id == s);
                        }
                        if s == session_id && t == now_ms {
                            assert(after[i as int].session_id == s);
                        }
                    }
                    assert(self.activity() =~= activity_without(
                        old(self).activity(),
                        session_id,
                    ).insert((session_id, now_ms)));
                    assert forall|a: int, b: int| 0 <= a < b < after.len() implies (#[trigger] after[a]).session_id != (#[trigger] after[b]).session_id by {
                        assert(before[a].session_id != before[b].session_id);
                    }
                }
                Ok(())
            },
        }
    }

    /// The sessions whose last activity lies `timeout_ms` or more before
    /// `now_ms`.
    pub fn inactive_sessions(&self, now_ms: u64, timeout_ms: u64) -> (v: Vec<SessionId>)
        ensures
            forall|s: SessionId|
                v@.contains(s) <==> exists|t: u64|
                    self.activity().contains((s, t)) && crate::sfu::timed_out(t, now_ms, timeout_ms),
    {
        let mut out: Vec<SessionId> = Vec::new();
        let mut i: usize = 0;
        while i < self.participants.len()
            invariant
                i <= self.participants@.len(),
                forall|s: SessionId|
                    out@.contains(s) <==> exists|j: int|
                        0 <= j < i && (#[trigger] self.participants@[j]).session_id == s
                            && crate::sfu::timed_out(
                            self.participants@[j].last_activity_ms,
                            now_ms,
                            timeout_ms,
                        ),
            decreases self.participants@.len() - i,
        {
            let ghost prev = out@;
            let ghost ps = self.participants@;
            if crate::sfu::has_timed_out(self.participants[i].last_activity_ms, now_ms, timeout_ms) {
                out.push(self.participants[i].session_id);
            }
            proof {
                assert forall|s: SessionId|
                    out@.contains(s) <==> exists|j: int|
                        0 <= j < i + 1 && (#[trigger] ps[j]).session_id == s
                            && crate::sfu::timed_out(ps[j].last_activity_ms, now_ms, timeout_ms) by {
                    if out@.contains(s) {
                        let k = choose|k: int| 0 <= k < out@.len() && out@[k] == s;
                        if k < prev.len() {
                            assert(prev[k] == s);
                            assert(prev.contains(s));
                        } else {
                            assert(ps[i as int].session_id == s);
                        }
                    }
                    if exists|j: int|
                        0 <= j < i + 1 && (#[trigger] ps[j]).session_id == s
                            && crate::sfu::timed_out(ps[j].last_activity_ms, now_ms, timeout_ms) {
                        let j = choose|j: int|
                            0 <= j < i + 1 && (#[trigger] ps[j]).session_id == s
                                && crate::sfu::timed_out(ps[j].last_activity_ms, now_ms, timeout_ms);
                        if j < i {
                            assert(prev.contains(s));
                            let k = choose|k: int| 0 <= k < prev.len() && prev[k] == s;
                            assert(out@[k] == s);
                        } else {
                            assert(out@[prev.len() as int] == s);
                        }
                    }
                }
            }
            i = i + 1;
        }
        proof {
            let ps = self.participants@;
            assert forall|s: SessionId|
                out@.contains(s) <==> exists|t: u64|
                    self.activity().contains((s, t)) && crate::sfu::timed_out(
                        t,
                        now_ms,
                        timeout_ms,
                    ) by {
                if out@.contains(s) {
                    let j = choose|j: int|
                        0 <= j < i && (#[trigger] ps[j]).session_id == s && crate::sfu::timed_out(
                            ps[j].last_activity_ms,
                            now_ms,
                            timeout_ms,
                        );
                    assert(seq_activity(ps, s, ps[j].last_activity_ms));
                    assert(self.activity().contains((s, ps[j].last_activity_ms)));
                }
                if exists|t: u64|
                    self.activity().contains((s, t)) && crate::sfu::timed_out(
                        t,
                        now_ms,
                        timeout_ms,
                    ) {
                    let t = choose|t: u64|
                        self.activity().contains((s, t)) && crate::sfu::timed_out(
                            t,
                            now_ms,
                            timeout_ms,
                        );
                    let j = choose|j: int|
                        0 <= j < ps.len() && (#[trigger] ps[j]).session_id == s
                            && ps[j].last_activity_ms == t;
                    assert(ps[j].session_id == s);
                }
            }
        }
        out
    }

    /// Whether some participant publishes the track.
    pub fn has_track(&self, track_id: TrackId) -> (r: bool)
        ensures
            r == self@.has_track(track_id),
    {
        self.find_track(track_id).is_some()
    }

    /// The kind of a track, if it is published.
    pub fn track_kind(&self, track_id: TrackId) -> (r: Option<TrackKind>)
        ensures
            match r {
                Some(k) => exists|p: SessionId| self.records().contains((track_id, p, k)),
                None => !self@.has_track(track_id),
            },
    {
        match self.find_track(track_id) {
            Some(i) => {
                assert(seq_has_record(
                    self.tracks@,
                    track_id,
                    self.tracks@[i as int].publisher_id,
                    self.tracks@[i as int].kind,
                ));
                assert(self.records().contains(
                    (track_id, self.tracks@[i as int].publisher_id, self.tracks@[i as int].kind),
                ));
                Some(self.tracks[i].kind)
            },
            None => None,
        }
    }

    /// The publisher of a track, if it is published.
    pub fn track_publisher(&self, track_id: TrackId) -> (r: Option<SessionId>)
        ensures
            match r {
                Some(p) => self@.tracks.contains((track_id, p)),
                None => !self@.has_track(track_id),
            },
    {
        match self.find_track(track_id) {
            Some(i) => Some(self.tracks[i].publisher_id),
            None => None,
        }
    }

    /// The ids of all live sessions.
    pub fn get_all_sessions(&self) -> (v: Vec<SessionId>)
        ensures
            forall|s: SessionId| v@.contains(s) <==> self@.sessions.contains(s),
    {
        let mut out: Vec<SessionId> = Vec::new();
        let mut i: usize = 0;
        while i < self.participants.len()
            invariant
                i <= self.participants@.len(),
                forall|s: SessionId|
                    out@.contains(s) <==> seq_has_session(self.participants@.take(i as int), s),
            decreases self.participants@.len() - i,
        {
            let id = self.participants[i].session_id;
            let ghost prev = out@;
            out.push(id);
            proof {
                let ps = self.participants@;
                assert forall|s: SessionId|
                    out@.contains(s) <==> seq_has_session(ps.take(i + 1), s) by {
                    if out@.contains(s) {
                        let k = choose|k: int| 0 <= k < out@.len() && out@[k] == s;
                        if k < prev.len() {
                            assert(prev[k] == s);
                            assert(prev.contains(s));
                            let j = choose|j: int|
                                0 <= j < ps.take(i as int).len() && (#[trigger] ps.take(
                                    i as int,
                                )[j]).session_id == s;
                            assert(ps.take(i + 1)[j].session_id == s);
                        } else {
                            assert(ps.take(i + 1)[i as int].session_id == s);
                        }
                    }
                    if seq_has_session(ps.take(i + 1), s) {
                        let j = choose|j: int|
                            0 <= j < ps.take(i + 1).len() && (#[trigger] ps.take(
                                i + 1,
                            )[j]).session_id == s;
                        if j < i {
                            assert(ps.take(i as int)[j].session_id == s);
                            assert(prev.contains(s));
                            let k = choose|k: int| 0 <= k < prev.len() && prev[k] == s;
                            assert(out@[k] == s);
                        } else {
                            assert(out@[prev.len() as int] == s);
                        }
                    }
                }
            }
            i = i + 1;
        }
        assert(self.participants@.take(i as int) =~= self.participants@);
        out
    }

    /// The ids of the tracks that a live session publishes.
    pub fn get_published_tracks(&self, session_id: SessionId) -> (r: Result<Vec<TrackId>, SfuError>)
        ensures
            match r {
                Ok(v) => self@.sessions.contains(session_id) && forall|t: TrackId|
                    v@.contains(t) <==> self@.published_tracks(session_id).contains(t),
                Err(e) => !self@.sessions.contains(session_id) && e == SfuError::Session(
                    SessionFault::NotFound,
                ),
            },
    {
        if self.find_session(session_id).is_none() {
            return Err(SfuError::Session(SessionFault::NotFound));
        }
        let mut out: Vec<TrackId> = Vec::new();
        let mut i: usize = 0;
        while i < self.tracks.len()
            invariant
                i <= self.tracks@.len(),
                forall|t: TrackId|
                    out@.contains(t) <==> seq_has_track(self.tracks@.take(i as int), t, session_id),
            decreases self.tracks@.len() - i,
        {
            let ghost prev = out@;
            let ghost ts = self.tracks@;
            if self.tracks[i].publisher_id == session_id {
                out.push(self.tracks[i].track_id);
            }
            proof {
                assert forall|t: TrackId|
                    out@.contains(t) <==> seq_has_track(ts.take(i + 1), t, session_id) by {
                    if out@.contains(t) {
                        let k = choose|k: int| 0 <= k < out@.len() && out@[k] == t;
                        if k < prev.len() {
                            assert(prev[k] == t);
                            assert(prev.contains(t));
                            let j = choose|j: int|
                                0 <= j < ts.take(i as int).len() && (#[trigger] ts.take(
                                    i as int,
                                )[j]).track_id == t && ts.take(i as int)[j].publisher_id
                                    == session_id;
                            assert(ts.take(i + 1)[j].track_id == t);
                        } else {
                            assert(ts.take(i + 1)[i as int].track_id == t);
                        }
                    }
                    if seq_has_track(ts.take(i + 1), t, session_id) {
                        let j = choose|j: int|
                            0 <= j < ts.take(i + 1).len() && (#[trigger] ts.take(i + 1)[j]).track_id
                                == t && ts.take(i + 1)[j].publisher_id == session_id;
                        if j < i {
                            assert(ts.take(i as int)[j].track_id == t);
                            assert(prev.contains(t));
                            let k = choose|k: int| 0 <= k < prev.len() && prev[k] == t;
                            assert(out@[k] == t);
                        } else {
                            assert(out@[prev.len() as int] == t);
                        }
                    }
                }
            }
            i = i + 1;
        }
        assert(self.tracks@.take(i as int) =~= self.tracks@);
        Ok(out)
    }

    /// The ids of the tracks that a live session is subscribed to.
    pub fn get_subscribed_tracks(&self, session_id: SessionId) -> (r: Result<Vec<TrackId>, SfuError>)
        ensures
            match r {
                Ok(v) => self@.sessions.contains(session_id) && forall|t: TrackId|
                    v@.contains(t) <==> self@.subscribed_tracks(session_id).contains(t),
                Err(e) => !self@.sessions.contains(session_id) && e == SfuError::Session(
                    SessionFault::NotFound,
                ),
            },
    {
        if self.find_session(session_id).is_none() {
            return Err(SfuError::Session(SessionFault::NotFound));
        }
        let mut out: Vec<TrackId> = Vec::new();
        let mut i: usize = 0;
        while i < self.subscriptions.len()
            invariant
                i <= self.subscriptions@.len(),
                forall|t: TrackId|
                    out@.contains(t) <==> exists|j: int|
                        0 <= j < i && (#[trigger] self.subscriptions@[j]).subscriber_id
                            == session_id && self.subscriptions@[j].track_id == t,
            decreases self.subscriptions@.len() - i,
        {
            let ghost prev = out@;
            let ghost es = self.subscriptions@;
            if self.subscriptions[i].subscriber_id == session_id {
                out.push(self.subscriptions[i].track_id);
            }
            proof {
                assert forall|t: TrackId|
                    out@.contains(t) <==> exists|j: int|
                        0 <= j < i + 1 && (#[trigger] es[j]).subscriber_id == session_id
                            && es[j].track_id == t by {
                    if out@.contains(t) {
                        let k = choose|k: int| 0 <= k < out@.len() && out@[k] == t;
                        if k < prev.len() {
                            assert(prev[k] == t);
                            assert(prev.contains(t));
                        } else {
                            assert(es[i as int].subscriber_id == session_id);
                        }
                    }
                    if exists|j: int|
                        0 <= j < i + 1 && (#[trigger] es[j]).subscriber_id == session_id
                            && es[j].track_id == t {
                        let j = choose|j: int|
                            0 <= j < i + 1 && (#[trigger] es[j]).subscriber_id == session_id
                                && es[j].track_id == t;
                        if j < i {
                            assert(prev.contains(t));
                            let k = choose|k: int| 0 <= k < prev.len() && prev[k] == t;
                            assert(out@[k] == t);
                        } else {
                            assert(out@[prev.len() as int] == t);
                        }
                    }
                }
            }
            i = i + 1;
        }
        proof {
            assert forall|t: TrackId|
                out@.contains(t) <==> self@.subscribed_tracks(session_id).contains(t) by {
                let es = self.subscriptions@;
                if out@.contains(t) {
                    let j = choose|j: int|
                        0 <= j < i && (#[trigger] es[j]).subscriber_id == session_id
                            && es[j].track_id == t;
                    assert(seq_has_edge(es, session_id, t, es[j].publisher_id));
                    assert(self@.edges.contains((session_id, t, es[j].publisher_id)));
                }
                if self@.subscribed_tracks(session_id).contains(t) {
                    let p = choose|p: SessionId| self@.edges.contains((session_id, t, p));
                    let j = choose|j: int|
                        0 <= j < es.len() && (#[trigger] es[j]).subscriber_id == session_id
                            && es[j].track_id == t && es[j].publisher_id == p;
                    assert(es[j].subscriber_id == session_id);
                }
            }
        }
        Ok(out)
    }

    /// The ids of the sessions subscribed to a track.
    pub fn get_subscribers(&self, track_id: TrackId) -> (v: Vec<SessionId>)
        ensures
            forall|s: SessionId| v@.contains(s) <==> self@.subscribers(track_id).contains(s),
    {
        let mut out: Vec<SessionId> = Vec::new();
        let mut i: usize = 0;
        while i < self.subscriptions.len()
            invariant
                i <= self.subscriptions@.len(),
                forall|s: SessionId|
                    out@.contains(s) <==> exists|j: int|
                        0 <= j < i && (#[trigger] self.subscriptions@[j]).track_id == track_id
                            && self.subscriptions@[j].subscriber_id == s,
            decreases self.subscriptions@.len() - i,
        {
            let ghost prev = out@;
            let ghost es = self.subscriptions@;
            if self.subscriptions[i].track_id == track_id {
                out.push(self.subscriptions[i].subscriber_id);
            }
            proof {
                assert forall|s: SessionId|
                    out@.contains(s) <==> exists|j: int|
                        0 <= j < i + 1 && (#[trigger] es[j]).track_id == track_id
                            && es[j].subscriber_id == s by {
                    if out@.contains(s) {
                        let k = choose|k: int| 0 <= k < out@.len() && out@[k] == s;
                        if k < prev.len() {
                            assert(prev[k] == s);
                            assert(prev.contains(s));
                        } else {
                            assert(es[i as int].track_id == track_id);
                        }
                    }
                    if exists|j: int|
                        0 <= j < i + 1 && (#[trigger] es[j]).track_id == track_id
                            && es[j].subscriber_id == s {
                        let j = choose|j: int|
                            0 <= j < i + 1 && (#[trigger] es[j]).track_id == track_id
                                && es[j].subscriber_id == s;
                        if j < i {
                            assert(prev.contains(s));
                            let k = choose|k: int| 0 <= k < prev.len() && prev[k] == s;
                            assert(out@[k] == s);
                        } else {
                            assert(out@[prev.len() as int] == s);
                        }
                    }
                }
            }
            i = i + 1;
        }
        proof {
            assert forall|s: SessionId|
                out@.contains(s) <==> self@.subscribers(track_id).contains(s) by {
                let es = self.subscriptions@;
                if out@.contains(s) {
                    let j = choose|j: int|
                        0 <= j < i && (#[trigger] es[j]).track_id == track_id
                            && es[j].subscriber_id == s;
                    assert(seq_has_edge(es, s, track_id, es[j].publisher_id));
                    assert(self@.edges.contains((s, track_id, es[j].publisher_id)));
                }
                if self@.subscribers(track_id).contains(s) {
                    let p = choose|p: SessionId| self@.edges.contains((s, track_id, p));
                    let j = choose|j: int|
                        0 <= j < es.len() && (#[trigger] es[j]).subscriber_id == s
                            && es[j].track_id == track_id && es[j].publisher_id == p;
                    assert(es[j].track_id == track_id);
                }
            }
        }
        out
    }
}

impl Default for DefaultSessionManager {
    fn default() -> (m: DefaultSessionManager)
        ensures
            m.wf(),
            m@.sessions == Set::<SessionId>::empty(),
            m@.tracks == Set::<(TrackId, SessionId)>::empty(),
            m@.edges == Set::<(SessionId, TrackId, SessionId)>::empty(),
            m@.next_session_id == 1,
            m@.next_track_id == 1,
    {
        DefaultSessionManager::new()
    }
}

/// What a request to subscribe answers: both sessions live, then not the
/// same, then the track one of the publisher's.
pub open spec fn subscribe_outcome(
    g: GraphView,
    subscriber_id: SessionId,
    publisher_id: SessionId,
    track_id: TrackId,
) -> Result<(), SfuError> {
    if !g.sessions.contains(publisher_id) || !g.sessions.contains(subscriber_id) {
        Err(SfuError::Session(SessionFault::NotFound))
    } else if subscriber_id == publisher_id {
        Err(SfuError::Session(SessionFault::InvalidSelf))
    } else if !g.tracks.contains((track_id, publisher_id)) {
        Err(SfuError::Media(MediaFault::TrackNotFound))
    } else {
        Ok(())
    }
}

fn drop_participant(ps: &mut Vec<Participant>, x: SessionId)
    requires
        ids_unique(old(ps)@),
    ensures
        ids_unique(final(ps)@),
        forall|s: SessionId|
            seq_has_session(final(ps)@, s) <==> (seq_has_session(old(ps)@, s) && s != x),
        forall|s: SessionId, t: u64|
            seq_activity(final(ps)@, s, t) <==> (seq_activity(old(ps)@, s, t) && s != x),
{
    let mut i: usize = 0;
    while i < ps.len()
        invariant
            i <= ps@.len(),
            ids_unique(ps@),
            forall|k: int| 0 <= k < i ==> (#[trigger] ps@[k]).session_id != x,
            forall|s: SessionId| seq_has_session(ps@, s) ==> seq_has_session(old(ps)@, s),
            forall|s: SessionId| seq_has_session(old(ps)@, s) && s != x ==> seq_has_session(ps@, s),
            forall|s: SessionId, t: u64| seq_activity(ps@, s, t) ==> seq_activity(old(ps)@, s, t),
            forall|s: SessionId, t: u64|
                seq_activity(old(ps)@, s, t) && s != x ==> seq_activity(ps@, s, t),
        decreases ps@.len() - i,
    {
        if ps[i].session_id == x {
            let ghost cur = ps@;
            ps.remove(i);
            proof {
                let next = ps@;
                assert forall|a: int, b: int| 0 <= a < b < next.len() implies (#[trigger] next[a]).session_id != (#[trigger] next[b]).session_id by {
                    let ca = if a < i { a } else { a + 1 };
                    let cb = if b < i { b } else { b + 1 };
                    assert(next[a] == cur[ca] && next[b] == cur[cb]);
                    assert(cur[ca].session_id != cur[cb].session_id);
                }
                assert forall|s: SessionId| seq_has_session(next, s) implies seq_has_session(
                    cur,
                    s,
                ) by {
                    let k = choose|k: int| 0 <= k < next.len() && (#[trigger] next[k]).session_id == s;
                    if k < i {
                        assert(cur[k].session_id == s);
                    } else {
                        assert(cur[k + 1].session_id == s);
                    }
                }
                assert forall|s: SessionId| seq_has_session(cur, s) && s != x implies seq_has_session(
                    next,
                    s,
                ) by {
                    let k = choose|k: int| 0 <= k < cur.len() && (#[trigger] cur[k]).session_id == s;
                    if k < i {
                        assert(next[k].session_id == s);
                    } else {
                        assert(next[k - 1].session_id == s);
                    }
                }
                assert forall|s: SessionId, t: u64| seq_activity(next, s, t) implies seq_activity(
                    cur,
                    s,
                    t,
                ) by {
                    let k = choose|k: int|
                        0 <= k < next.len() && (#[trigger] next[k]).session_id == s
                            && next[k].last_activity_ms == t;
                    if k < i {
                        assert(cur[k].session_id == s);
                    } else {
                        assert(cur[k + 1].session_id == s);
                    }
                }
                assert forall|s: SessionId, t: u64|
                    seq_activity(cur, s, t) && s != x implies seq_activity(next, s, t) by {
                    let k = choose|k: int|
                        0 <= k < cur.len() && (#[trigger] cur[k]).session_id == s
                            && cur[k].last_activity_ms == t;
                    if k < i {
                        assert(next[k].session_id == s);
                    } else {
                        assert(next[k - 1].session_id == s);
                    }
                }
            }
        } else {
            i = i + 1;
        }
    }
    proof {
        assert forall|s: SessionId, t: u64| seq_activity(ps@, s, t) implies s != x by {
            let k = choose|k: int|
                0 <= k < ps@.len() && (#[trigger] ps@[k]).session_id == s && ps@[k].last_activity_ms
                    == t;
        }
        assert forall|s: SessionId| seq_has_session(ps@, s) implies s != x by {
            let k = choose|k: int| 0 <= k < ps@.len() && (#[trigger] ps@[k]).session_id == s;
        }
    }
}

fn drop_tracks_of(ts: &mut Vec<PublishedTrack>, x: SessionId)
    ensures
        forall|t: TrackId, p: SessionId|
            seq_has_track(final(ts)@, t, p) <==> (seq_has_track(old(ts)@, t, p) && p != x),
        forall|t: TrackId, p: SessionId, k: TrackKind|
            seq_has_record(final(ts)@, t, p, k) <==> (seq_has_record(old(ts)@, t, p, k) && p != x),
{
    let mut i: usize = 0;
    while i < ts.len()
        invariant
            i <= ts@.len(),
            forall|k: int| 0 <= k < i ==> (#[trigger] ts@[k]).publisher_id != x,
            forall|t: TrackId, p: SessionId|
                seq_has_track(ts@, t, p) ==> seq_has_track(old(ts)@, t, p),
            forall|t: TrackId, p: SessionId|
                seq_has_track(old(ts)@, t, p) && p != x ==> seq_has_track(ts@, t, p),
            forall|t: TrackId, p: SessionId, k: TrackKind|
                seq_has_record(ts@, t, p, k) ==> seq_has_record(old(ts)@, t, p, k),
            forall|t: TrackId, p: SessionId, k: TrackKind|
                seq_has_record(old(ts)@, t, p, k) && p != x ==> seq_has_record(ts@, t, p, k),
        decreases ts@.len() - i,
    {
        if ts[i].publisher_id == x {
            let ghost cur = ts@;
            ts.remove(i);
            proof {
                let next = ts@;
                assert forall|t: TrackId, p: SessionId| seq_has_track(next, t, p) implies seq_has_track(
                    cur,
                    t,
                    p,
                ) by {
                    let k = choose|k: int|
                        0 <= k < next.len() && (#[trigger] next[k]).track_id == t
                            && next[k].publisher_id == p;
                    if k < i {
                        assert(cur[k].track_id == t);
                    } else {
                        assert(cur[k + 1].track_id == t);
                    }
                }
                assert forall|t: TrackId, p: SessionId|
                    seq_has_track(cur, t, p) && p != x implies seq_has_track(next, t, p) by {
                    let k = choose|k: int|
                        0 <= k < cur.len() && (#[trigger] cur[k]).track_id == t
                            && cur[k].publisher_id == p;
                    if k < i {
                        assert(next[k].track_id == t);
                    } else {
                        assert(next[k - 1].track_id == t);
                    }
                }
                assert forall|t: TrackId, p: SessionId, kd: TrackKind|
                    seq_has_record(next, t, p, kd) implies seq_has_record(cur, t, p, kd) by {
                    let k = choose|k: int|
                        0 <= k < next.len() && (#[trigger] next[k]).track_id == t
                            && next[k].publisher_id == p && next[k].kind == kd;
                    if k < i {
                        assert(cur[k].track_id == t);
                    } else {
                        assert(cur[k + 1].track_id == t);
                    }
                }
                assert forall|t: TrackId, p: SessionId, kd: TrackKind|
                    seq_has_record(cur, t, p, kd) && p != x implies seq_has_record(
                    next,
                    t,
                    p,
                    kd,
                ) by {
                    let k = choose|k: int|
                        0 <= k < cur.len() && (#[trigger] cur[k]).track_id == t
                            && cur[k].publisher_id == p && cur[k].kind == kd;
                    if k < i {
                        assert(next[k].track_id == t);
                    } else {
                        assert(next[k - 1].track_id == t);
                    }
                }
            }
        } else {
            i = i + 1;
        }
    }
    proof {
        assert forall|t: TrackId, p: SessionId, kd: TrackKind|
            seq_has_record(ts@, t, p, kd) implies p != x by {
            let k = choose|k: int|
                0 <= k < ts@.len() && (#[trigger] ts@[k]).track_id == t && ts@[k].publisher_id == p
                    && ts@[k].kind == kd;
        }
        assert forall|t: TrackId, p: SessionId| seq_has_track(ts@, t, p) implies p != x by {
            let k = choose|k: int|
                0 <= k < ts@.len() && (#[trigger] ts@[k]).track_id == t && ts@[k].publisher_id
                    == p;
        }
    }
}

fn drop_edges_of(es: &mut Vec<SubscribedTrack>, x: SessionId)
    ensures
        forall|s: SessionId, t: TrackId, p: SessionId|
            seq_has_edge(final(es)@, s, t, p) <==> (seq_has_edge(old(es)@, s, t, p) && s != x && p
                != x),
{
    let mut i: usize = 0;
    while i < es.len()
        invariant
            i <= es@.len(),
            forall|k: int|
                0 <= k < i ==> (#[trigger] es@[k]).subscriber_id != x && es@[k].publisher_id != x,
            forall|s: SessionId, t: TrackId, p: SessionId|
                seq_has_edge(es@, s, t, p) ==> seq_has_edge(old(es)@, s, t, p),
            forall|s: SessionId, t: TrackId, p: SessionId|
                seq_has_edge(old(es)@, s, t, p) && s != x && p != x ==> seq_has_edge(es@, s, t, p),
        decreases es@.len() - i,
    {
        if es[i].subscriber_id == x || es[i].publisher_id == x {
            let ghost cur = es@;
            es.remove(i);
            proof {
                lemma_edge_removed(cur, i as int);
            }
        } else {
            i = i + 1;
        }
    }
}

fn drop_subscription(es: &mut Vec<SubscribedTrack>, x: SessionId, y: TrackId)
    ensures
        forall|s: SessionId, t: TrackId, p: SessionId|
            seq_has_edge(final(es)@, s, t, p) <==> (seq_has_edge(old(es)@, s, t, p) && !(s == x
                && t == y)),
{
    let mut i: usize = 0;
    while i < es.len()
        invariant
            i <= es@.len(),
            forall|k: int|
                0 <= k < i ==> !((#[trigger] es@[k]).subscriber_id == x && es@[k].track_id == y),
            forall|s: SessionId, t: TrackId, p: SessionId|
                seq_has_edge(es@, s, t, p) ==> seq_has_edge(old(es)@, s, t, p),
            forall|s: SessionId, t: TrackId, p: SessionId|
                seq_has_edge(old(es)@, s, t, p) && !(s == x && t == y) ==> seq_has_edge(
                    es@,
                    s,
                    t,
                    p,
                ),
        decreases es@.len() - i,
    {
        if es[i].subscriber_id == x && es[i].track_id == y {
            let ghost cur = es@;
            es.remove(i);
            proof {
                lemma_edge_removed(cur, i as int);
            }
        } else {
            i = i + 1;
        }
    }
}

proof fn lemma_edge_removed(cur: Seq<SubscribedTrack>, i: int)
    requires
        0 <= i < cur.len(),
    ensures
        forall|s: SessionId, t: TrackId, p: SessionId|
            seq_has_edge(cur.remove(i), s, t, p) ==> seq_has_edge(cur, s, t, p),
        forall|s: SessionId, t: TrackId, p: SessionId|
            seq_has_edge(cur, s, t, p) && !(cur[i].subscriber_id == s && cur[i].track_id == t
                && cur[i].publisher_id == p) ==> seq_has_edge(cur.remove(i), s, t, p),
{
    let next = cur.remove(i);
    assert forall|s: SessionId, t: TrackId, p: SessionId| seq_has_edge(next, s, t, p) implies seq_has_edge(
        cur,
        s,
        t,
        p,
    ) by {
        let k = choose|k: int|
            0 <= k < next.len() && (#[trigger] next[k]).subscriber_id == s && next[k].track_id == t
                && next[k].publisher_id == p;
        if k < i {
            assert(cur[k].subscriber_id == s);
        } else {
            assert(cur[k + 1].subscriber_id == s);
        }
    }
    assert forall|s: SessionId, t: TrackId, p: SessionId|
        seq_has_edge(cur, s, t, p) && !(cur[i].subscriber_id == s && cur[i].track_id == t
            && cur[i].publisher_id == p) implies seq_has_edge(next, s, t, p) by {
        let k = choose|k: int|
            0 <= k < cur.len() && (#[trigger] cur[k]).subscriber_id == s && cur[k].track_id == t
                && cur[k].publisher_id == p;
        if k < i {
            assert(next[k].subscriber_id == s);
        } else {
            assert(next[k - 1].subscriber_id == s);
        }
    }
}

} // verus!
