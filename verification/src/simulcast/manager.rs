//! The simulcast state of every registered track.
use vstd::prelude::*;
use std::collections::HashMap;
use crate::error::{MediaFault, SfuError};
use crate::feedback::{SessionId, SimulcastControlMessage, TrackId};
use crate::simulcast::{
    create_layers, grid_layers, grid_valid, is_selection, pick_layer, LayerGrid, LayerId,
    SimulcastLayer, SubscriptionEvent, SubscriptionState,
};

verus! {

broadcast use vstd::std_specs::hash::group_hash_axioms;

/// Layers and subscriber selections of one track.
pub struct TrackSimulcastInfo {
    pub track_id: TrackId,
    pub publisher_id: SessionId,
    pub layers: Vec<SimulcastLayer>,
    pub subscriber_selections: HashMap<SessionId, SubscriptionState>,
}

/// The mathematical value of a track's simulcast state.
pub ghost struct TrackView {
    pub publisher_id: SessionId,
    pub layers: Seq<SimulcastLayer>,
    pub selections: Map<SessionId, SubscriptionState>,
}

impl View for TrackSimulcastInfo {
    type V = TrackView;

    open spec fn view(&self) -> TrackView {
        TrackView {
            publisher_id: self.publisher_id,
            layers: self.layers@,
            selections: self.subscriber_selections@,
        }
    }
}

/// A subscription refers to layers of its track, and to active ones.
pub open spec fn state_valid(layers: Seq<SimulcastLayer>, st: SubscriptionState) -> bool {
    &&& st.spec_committed() < layers.len()
    &&& layers[st.spec_committed() as int].active
    &&& match st.spec_pending() {
        Some(to) => to < layers.len() && layers[to as int].active && st.spec_committed() < to,
        None => true,
    }
}

/// A track has its layers under dense ids, its base layer is active, and
/// every subscription is valid for its layers.
pub open spec fn track_valid(t: TrackView) -> bool {
    &&& 1 <= t.layers.len() <= 256
    &&& forall|i: int| 0 <= i < t.layers.len() ==> (#[trigger] t.layers[i]).layer_id == i
    &&& t.layers[0].active
    &&& forall|s: SessionId| #[trigger]
        t.selections.contains_key(s) ==> state_valid(t.layers, t.selections[s])
}

/// Every track of the manager is valid.
pub open spec fn manager_valid(m: Map<TrackId, TrackView>) -> bool {
    forall|t: TrackId| #[trigger] m.contains_key(t) ==> track_valid(m[t])
}

/// A simulcast track always has an active layer.
pub proof fn lemma_active_layer_exists(m: Map<TrackId, TrackView>, t: TrackId)
    requires
        manager_valid(m),
        m.contains_key(t),
    ensures
        exists|i: int| 0 <= i < m[t].layers.len() && (#[trigger] m[t].layers[i]).active,
{
    assert(m[t].layers[0].active);
}

/// The layer forwarded to a subscriber is an active layer of the track, and
/// so is a layer that waits for a key frame.
pub proof fn lemma_committed_layer_active(m: Map<TrackId, TrackView>, t: TrackId, s: SessionId)
    requires
        manager_valid(m),
        m.contains_key(t),
        m[t].selections.contains_key(s),
    ensures
        m[t].selections[s].spec_committed() < m[t].layers.len(),
        m[t].layers[m[t].selections[s].spec_committed() as int].active,
        m[t].selections[s].spec_pending() matches Some(to) ==> to < m[t].layers.len()
            && m[t].layers[to as int].active,
{
}

/// The state of a subscriber after the selector chose `layer`: a first
/// selection is forwarded at once, a later one goes through the switching
/// rules.
pub open spec fn selected_state(
    selections: Map<SessionId, SubscriptionState>,
    subscriber_id: SessionId,
    layer: LayerId,
    now_ms: u64,
) -> SubscriptionState {
    if selections.contains_key(subscriber_id) {
        selections[subscriber_id].step(SubscriptionEvent::Selected { layer, now_ms })
    } else {
        SubscriptionState::Steady { layer }
    }
}

/// Whether layer `k` is the first with the given indices.
pub open spec fn first_with_indices(
    layers: Seq<SimulcastLayer>,
    spatial_id: u8,
    temporal_id: u8,
    k: int,
) -> bool {
    &&& 0 <= k < layers.len()
    &&& layers[k].spatial_id == spatial_id && layers[k].temporal_id == temporal_id
    &&& forall|j: int|
        0 <= j < k ==> !((#[trigger] layers[j]).spatial_id == spatial_id && layers[j].temporal_id
            == temporal_id)
}

/// Whether some layer has the given indices.
pub open spec fn has_indices(layers: Seq<SimulcastLayer>, spatial_id: u8, temporal_id: u8) -> bool {
    exists|k: int|
        0 <= k < layers.len() && (#[trigger] layers[k]).spatial_id == spatial_id
            && layers[k].temporal_id == temporal_id
}

/// The layers after the first layer with the given indices was activated.
pub open spec fn activated(layers: Seq<SimulcastLayer>, spatial_id: u8, temporal_id: u8) -> Seq<
    SimulcastLayer,
> {
    Seq::new(
        layers.len(),
        |k: int|
            if first_with_indices(layers, spatial_id, temporal_id, k) {
                SimulcastLayer { active: true, ..layers[k] }
            } else {
                layers[k]
            },
    )
}

/// The track a control message is about.
pub open spec fn control_track(message: SimulcastControlMessage) -> TrackId {
    match message {
        SimulcastControlMessage::ActivateLayers { track_id, .. } => track_id,
        SimulcastControlMessage::LayerSwitched { track_id, .. } => track_id,
        SimulcastControlMessage::LayerBitrateUpdate { track_id, .. } => track_id,
    }
}

/// What a control message from `publisher_id` does to the tracks: the new
/// tracks, or the reason for which it is refused. A switch notice changes
/// nothing. The other two need the track, its publisher, and the layer.
pub open spec fn control_outcome(
    m: Map<TrackId, TrackView>,
    message: SimulcastControlMessage,
    publisher_id: SessionId,
) -> Result<Map<TrackId, TrackView>, SfuError> {
    match message {
        SimulcastControlMessage::LayerSwitched { .. } => Ok(m),
        SimulcastControlMessage::ActivateLayers { track_id, spatial_id, temporal_id } => {
            if !m.contains_key(track_id) {
                Err(SfuError::Media(MediaFault::TrackNotFound))
            } else if m[track_id].publisher_id != publisher_id {
                Err(SfuError::Media(MediaFault::NotPublisher))
            } else if !has_indices(m[track_id].layers, spatial_id, temporal_id) {
                Err(SfuError::Media(MediaFault::LayerNotFound))
            } else {
                Ok(
                    m.insert(
                        track_id,
                        TrackView {
                            layers: activated(m[track_id].layers, spatial_id, temporal_id),
                            ..m[track_id]
                        },
                    ),
                )
            }
        },
        SimulcastControlMessage::LayerBitrateUpdate { track_id, layer_id, target_bitrate } => {
            if !m.contains_key(track_id) {
                Err(SfuError::Media(MediaFault::TrackNotFound))
            } else if m[track_id].publisher_id != publisher_id {
                Err(SfuError::Media(MediaFault::NotPublisher))
            } else if layer_id >= m[track_id].layers.len() {
                Err(SfuError::Media(MediaFault::LayerNotFound))
            } else {
                Ok(
                    m.insert(
                        track_id,
                        TrackView {
                            layers: m[track_id].layers.update(
                                layer_id as int,
                                SimulcastLayer {
                                    target_bitrate,
                                    ..m[track_id].layers[layer_id as int]
                                },
                            ),
                            ..m[track_id]
                        },
                    ),
                )
            }
        },
    }
}

fn find_indices(layers: &Vec<SimulcastLayer>, spatial_id: u8, temporal_id: u8) -> (r: Option<usize>)
    ensures
        match r {
            Some(k) => first_with_indices(layers@, spatial_id, temporal_id, k as int),
            None => !has_indices(layers@, spatial_id, temporal_id),
        },
{
    let mut k: usize = 0;
    while k < layers.len()
        invariant
            k <= layers@.len(),
            forall|j: int|
                0 <= j < k ==> !((#[trigger] layers@[j]).spatial_id == spatial_id
                    && layers@[j].temporal_id == temporal_id),
        decreases layers@.len() - k,
    {
        if layers[k].spatial_id == spatial_id && layers[k].temporal_id == temporal_id {
            return Some(k);
        }
        k = k + 1;
    }
    None
}

fn replace_layer(layers: &Vec<SimulcastLayer>, at: usize, layer: SimulcastLayer) -> (out: Vec<
    SimulcastLayer,
>)
    requires
        at < layers@.len(),
    ensures
        out@ == layers@.update(at as int, layer),
{
    let mut out: Vec<SimulcastLayer> = Vec::new();
    let mut i: usize = 0;
    while i < layers.len()
        invariant
            i <= layers@.len(),
            at < layers@.len(),
            out@.len() == i,
            forall|k: int| 0 <= k < i ==> out@[k] == layers@.update(at as int, layer)[k],
        decreases layers@.len() - i,
    {
        if i == at {
            out.push(layer);
        } else {
            out.push(layers[i]);
        }
        i = i + 1;
    }
    assert(out@ =~= layers@.update(at as int, layer));
    out
}

/// The simulcast manager: one entry per registered track.
pub struct DefaultSimulcastManager {
    track_configs: HashMap<TrackId, TrackSimulcastInfo>,
}

impl View for DefaultSimulcastManager {
    type V = Map<TrackId, TrackView>;

    closed spec fn view(&self) -> Map<TrackId, TrackView> {
        Map::new(
            |t: TrackId| self.track_configs@.contains_key(t),
            |t: TrackId| self.track_configs@[t]@,
        )
    }
}

impl DefaultSimulcastManager {
    /// Every track is valid and filed under its own id.
    pub closed spec fn wf(&self) -> bool {
        &&& manager_valid(self@)
        &&& forall|t: TrackId| #[trigger]
            self.track_configs@.contains_key(t) ==> self.track_configs@[t].track_id == t
    }

    /// What `wf` says of the tracks' values.
    pub proof fn lemma_wf_valid(&self)
        requires
            self.wf(),
        ensures
            manager_valid(self@),
    {
    }

    /// A manager without tracks.
    pub fn new() -> (m: DefaultSimulcastManager)
        ensures
            m.wf(),
            m@ == Map::<TrackId, TrackView>::empty(),
    {
        let m = DefaultSimulcastManager { track_configs: HashMap::new() };
        assert(m@ =~= Map::<TrackId, TrackView>::empty());
        m
    }

    /// Registers a track with the layers of `grid` and no subscriptions,
    /// replacing an earlier registration of the same id; an invalid grid is
    /// refused.
    pub fn register_track(
        &mut self,
        track_id: TrackId,
        publisher_id: SessionId,
        grid: &LayerGrid,
    ) -> (r: Result<(), SfuError>)
        requires
            old(self).wf(),
        ensures
            final(self).wf(),
            match r {
                Ok(()) => grid_valid(grid.spatial_layers, grid.temporal_layers, grid.bitrates@)
                    && final(self)@ == old(self)@.insert(
                    track_id,
                    TrackView {
                        publisher_id,
                        layers: grid_layers(
                            grid.spatial_layers,
                            grid.temporal_layers,
                            grid.bitrates@,
                        ),
                        selections: Map::empty(),
                    },
                ),
                Err(e) => !grid_valid(grid.spatial_layers, grid.temporal_layers, grid.bitrates@)
                    && e == SfuError::Media(MediaFault::InvalidLayers) && final(self)@ == old(
                    self,
                )@,
            },
    {
        let layers = match create_layers(grid) {
            Ok(layers) => layers,
            Err(e) => {
                return Err(e);
            },
        };
        let info = TrackSimulcastInfo {
            track_id,
            publisher_id,
            layers,
            subscriber_selections: HashMap::new(),
        };
        assert(track_valid(info@));
        self.track_configs.insert(track_id, info);
        assert(self@ =~= old(self)@.insert(track_id, info@));
        Ok(())
    }

    /// Removes a track, or reports that it is not registered.
    pub fn unregister_track(&mut self, track_id: TrackId) -> (r: Result<(), SfuError>)
        requires
            old(self).wf(),
        ensures
            final(self).wf(),
            final(self)@ == old(self)@.remove(track_id),
            r == (if old(self)@.contains_key(track_id) {
                Ok::<(), SfuError>(())
            } else {
                Err::<(), SfuError>(SfuError::Media(MediaFault::TrackNotFound))
            }),
    {
        let removed = self.track_configs.remove(&track_id);
        assert(self@ =~= old(self)@.remove(track_id));
        match removed {
            Some(_) => Ok(()),
            None => Err(SfuError::Media(MediaFault::TrackNotFound)),
        }
    }

    /// The layers of a track, in layer-id order.
    pub fn get_available_layers(&self, track_id: TrackId) -> (r: Result<
        Vec<SimulcastLayer>,
        SfuError,
    >)
        requires
            self.wf(),
        ensures
            match r {
                Ok(layers) => self@.contains_key(track_id) && layers@ == self@[track_id].layers,
                Err(e) => !self@.contains_key(track_id) && e == SfuError::Media(
                    MediaFault::TrackNotFound,
                ),
            },
    {
        match self.track_configs.get(&track_id) {
            Some(info) => {
                let mut out: Vec<SimulcastLayer> = Vec::new();
                let mut i: usize = 0;
                while i < info.layers.len()
                    invariant
                        i <= info.layers@.len(),
                        out@ == info.layers@.take(i as int),
                    decreases info.layers@.len() - i,
                {
                    out.push(info.layers[i]);
                    i = i + 1;
                    assert(out@ =~= info.layers@.take(i as int));
                }
                assert(info.layers@.take(i as int) =~= info.layers@);
                Ok(out)
            },
            None => Err(SfuError::Media(MediaFault::TrackNotFound)),
        }
    }

    /// Selects the layer of a track for a subscriber at the given bandwidth:
    /// the highest active layer within it, else the lowest active layer. The
    /// choice is recorded: a lower layer is forwarded at once, a higher one
    /// waits for a key frame.
    pub fn select_layer(
        &mut self,
        track_id: TrackId,
        subscriber_id: SessionId,
        available_bandwidth: u32,
        now_ms: u64,
    ) -> (r: Result<LayerId, SfuError>)
        requires
            old(self).wf(),
        ensures
            final(self).wf(),
            match r {
                Ok(layer) => {
                    &&& old(self)@.contains_key(track_id)
                    &&& is_selection(old(self)@[track_id].layers, available_bandwidth, layer as int)
                    &&& final(self)@ == old(self)@.insert(
                        track_id,
                        TrackView {
                            selections: old(self)@[track_id].selections.insert(
                                subscriber_id,
                                selected_state(
                                    old(self)@[track_id].selections,
                                    subscriber_id,
                                    layer,
                                    now_ms,
                                ),
                            ),
                            ..old(self)@[track_id]
                        },
                    )
                },
                Err(e) => !old(self)@.contains_key(track_id) && e == SfuError::Media(
                    MediaFault::TrackNotFound,
                ) && final(self)@ == old(self)@,
            },
    {
        match self.track_configs.remove(&track_id) {
            None => {
                assert(self@ =~= old(self)@);
                Err(SfuError::Media(MediaFault::TrackNotFound))
            },
            Some(info) => {
                let mut info = info;
                let ghost before = info@;
                assert(old(self).track_configs@.contains_key(track_id));
                assert(old(self)@.contains_key(track_id));
                assert(before == old(self)@[track_id]);
                assert(track_valid(before));
                assert(before.layers[0].active);
                let picked = pick_layer(&info.layers, available_bandwidth);
                let layer: LayerId = info.layers[picked].layer_id;
                let next = match info.subscriber_selections.get(&subscriber_id) {
                    Some(st) => st.apply(SubscriptionEvent::Selected { layer, now_ms }),
                    None => SubscriptionState::Steady { layer },
                };
                assert(next == selected_state(before.selections, subscriber_id, layer, now_ms));
                assert(state_valid(before.layers, next)) by {
                    if before.selections.contains_key(subscriber_id) {
                        assert(state_valid(before.layers, before.selections[subscriber_id]));
                    }
                }
                info.subscriber_selections.insert(subscriber_id, next);
                assert(track_valid(info@)) by {
                    assert forall|s: SessionId| #[trigger]
                        info@.selections.contains_key(s) implies state_valid(
                        info@.layers,
                        info@.selections[s],
                    ) by {
                        if s != subscriber_id {
                            assert(before.selections.contains_key(s));
                        }
                    }
                }
                self.track_configs.insert(track_id, info);
                assert(self@ =~= old(self)@.insert(
                    track_id,
                    TrackView {
                        selections: before.selections.insert(subscriber_id, next),
                        ..before
                    },
                ));
                assert forall|t: TrackId| #[trigger] self@.contains_key(t) implies track_valid(
                    self@[t],
                ) by {
                    if t != track_id {
                        assert(old(self)@.contains_key(t));
                    }
                }
                Ok(layer)
            },
        }
    }

    /// Applies a control message that came from `publisher_id`. Only the
    /// publisher of a track may activate a layer or change its bitrate; a
    /// switch notice is informational. A refused message changes nothing.
    pub fn process_control_message(
        &mut self,
        message: SimulcastControlMessage,
        publisher_id: SessionId,
    ) -> (r: Result<(), SfuError>)
        requires
            old(self).wf(),
        ensures
            final(self).wf(),
            match control_outcome(old(self)@, message, publisher_id) {
                Ok(m) => r.is_ok() && final(self)@ == m,
                Err(e) => r == Err::<(), SfuError>(e) && final(self)@ == old(self)@,
            },
    {
        match message {
            SimulcastControlMessage::LayerSwitched { .. } => Ok(()),
            SimulcastControlMessage::ActivateLayers { track_id, spatial_id, temporal_id } => {
                match self.track_configs.remove(&track_id) {
                    None => {
                        assert(self@ =~= old(self)@);
                        Err(SfuError::Media(MediaFault::TrackNotFound))
                    },
                    Some(info) => {
                        let mut info = info;
                        let ghost before = info@;
                        assert(old(self).track_configs@.contains_key(track_id));
                        assert(old(self)@.contains_key(track_id));
                        assert(track_valid(before));
                        let found = if info.publisher_id != publisher_id {
                            Err(SfuError::Media(MediaFault::NotPublisher))
                        } else {
                            match find_indices(&info.layers, spatial_id, temporal_id) {
                                None => Err(SfuError::Media(MediaFault::LayerNotFound)),
                                Some(k) => Ok(k),
                            }
                        };
                        match found {
                            Err(e) => {
                                self.track_configs.insert(track_id, info);
                                assert(self@ =~= old(self)@);
                                Err(e)
                            },
                            Ok(k) => {
                                let layer = info.layers[k];
                                info.layers = replace_layer(
                                    &info.layers,
                                    k,
                                    SimulcastLayer {
                                        layer_id: layer.layer_id,
                                        spatial_id: layer.spatial_id,
                                        temporal_id: layer.temporal_id,
                                        target_bitrate: layer.target_bitrate,
                                        active: true,
                                    },
                                );
                                assert(info.layers@ =~= activated(
                                    before.layers,
                                    spatial_id,
                                    temporal_id,
                                ));
                                proof {
                                    lemma_layers_kept(before, info@);
                                }
                                self.track_configs.insert(track_id, info);
                                assert(self@ =~= old(self)@.insert(track_id, info@));
                                assert forall|t: TrackId| #[trigger]
                                    self@.contains_key(t) implies track_valid(self@[t]) by {
                                    if t != track_id {
                                        assert(old(self)@.contains_key(t));
                                    }
                                }
                                Ok(())
                            },
                        }
                    },
                }
            },
            SimulcastControlMessage::LayerBitrateUpdate { track_id, layer_id, target_bitrate } => {
                match self.track_configs.remove(&track_id) {
                    None => {
                        assert(self@ =~= old(self)@);
                        Err(SfuError::Media(MediaFault::TrackNotFound))
                    },
                    Some(info) => {
                        let mut info = info;
                        let ghost before = info@;
                        assert(old(self).track_configs@.contains_key(track_id));
                        assert(old(self)@.contains_key(track_id));
                        assert(track_valid(before));
                        let refused = if info.publisher_id != publisher_id {
                            Some(SfuError::Media(MediaFault::NotPublisher))
                        } else if layer_id as usize >= info.layers.len() {
                            Some(SfuError::Media(MediaFault::LayerNotFound))
                        } else {
                            None
                        };
                        match refused {
                            Some(e) => {
                                self.track_configs.insert(track_id, info);
                                assert(self@ =~= old(self)@);
                                Err(e)
                            },
                            None => {
                                let layer = info.layers[layer_id as usize];
                                info.layers = replace_layer(
                                    &info.layers,
                                    layer_id as usize,
                                    SimulcastLayer {
                                        layer_id: layer.layer_id,
                                        spatial_id: layer.spatial_id,
                                        temporal_id: layer.temporal_id,
                                        target_bitrate,
                                        active: layer.active,
                                    },
                                );
                                proof {
                                    lemma_layers_kept(before, info@);
                                }
                                self.track_configs.insert(track_id, info);
                                assert(self@ =~= old(self)@.insert(track_id, info@));
                                assert forall|t: TrackId| #[trigger]
                                    self@.contains_key(t) implies track_valid(self@[t]) by {
                                    if t != track_id {
                                        assert(old(self)@.contains_key(t));
                                    }
                                }
                                Ok(())
                            },
                        }
                    },
                }
            },
        }
    }

    /// The state of a subscription, if the track is registered and the
    /// subscriber has a selection on it.
    pub fn subscription(&self, track_id: TrackId, subscriber_id: SessionId) -> (r: Option<
        SubscriptionState,
    >)
        requires
            self.wf(),
        ensures
            r == (if self@.contains_key(track_id) && self@[track_id].selections.contains_key(
                subscriber_id,
            ) {
                Some(self@[track_id].selections[subscriber_id])
            } else {
                None
            }),
    {
        match self.track_configs.get(&track_id) {
            None => None,
            Some(info) => match info.subscriber_selections.get(&subscriber_id) {
                None => None,
                Some(st) => Some(*st),
            },
        }
    }

    /// The layer whose frames go to a subscriber: an active layer of the
    /// track.
    pub fn committed_layer(&self, track_id: TrackId, subscriber_id: SessionId) -> (r: Option<
        SimulcastLayer,
    >)
        requires
            self.wf(),
        ensures
            match r {
                Some(layer) => {
                    &&& self@.contains_key(track_id)
                    &&& self@[track_id].selections.contains_key(subscriber_id)
                    &&& layer == self@[track_id].layers[self@[track_id].selections[subscriber_id].spec_committed() as int]
                    &&& layer.active
                },
                None => !(self@.contains_key(track_id) && self@[track_id].selections.contains_key(
                    subscriber_id,
                )),
            },
    {
        match self.track_configs.get(&track_id) {
            None => None,
            Some(info) => match info.subscriber_selections.get(&subscriber_id) {
                None => None,
                Some(st) => {
                    assert(self@.contains_key(track_id));
                    assert(track_valid(self@[track_id]));
                    assert(self@[track_id].selections.contains_key(subscriber_id));
                    Some(info.layers[st.committed() as usize])
                },
            },
        }
    }

    /// Sends an event through one subscription. Nothing changes if the track
    /// or the subscription is unknown.
    fn advance(&mut self, track_id: TrackId, subscriber_id: SessionId, ev: SubscriptionEvent)
        requires
            old(self).wf(),
            !(ev is Selected),
        ensures
            final(self).wf(),
            final(self)@ == advanced(old(self)@, track_id, subscriber_id, ev),
    {
        match self.track_configs.remove(&track_id) {
            None => {
                assert(self@ =~= old(self)@);
            },
            Some(info) => {
                let mut info = info;
                let ghost before = info@;
                assert(old(self).track_configs@.contains_key(track_id));
                assert(old(self)@.contains_key(track_id));
                assert(track_valid(before));
                let current = match info.subscriber_selections.get(&subscriber_id) {
                    None => None,
                    Some(st) => Some(*st),
                };
                match current {
                    None => {
                        self.track_configs.insert(track_id, info);
                        assert(self@ =~= old(self)@);
                    },
                    Some(st) => {
                        assert(before.selections.contains_key(subscriber_id));
                        assert(state_valid(before.layers, st));
                        let next = st.apply(ev);
                        info.subscriber_selections.insert(subscriber_id, next);
                        assert(track_valid(info@)) by {
                            assert forall|s: SessionId| #[trigger]
                                info@.selections.contains_key(s) implies state_valid(
                                info@.layers,
                                info@.selections[s],
                            ) by {
                                if s != subscriber_id {
                                    assert(before.selections.contains_key(s));
                                }
                            }
                        }
                        self.track_configs.insert(track_id, info);
                        assert(self@ =~= advanced(old(self)@, track_id, subscriber_id, ev));
                        assert forall|t: TrackId| #[trigger]
                            self@.contains_key(t) implies track_valid(self@[t]) by {
                            if t != track_id {
                                assert(old(self)@.contains_key(t));
                            }
                        }
                    },
                }
            },
        }
    }

    /// Records that a key frame of `layer_id` was forwarded to a subscriber:
    /// an upgrade to that layer is committed on this frame.
    pub fn key_frame_forwarded(
        &mut self,
        track_id: TrackId,
        subscriber_id: SessionId,
        layer_id: LayerId,
    )
        requires
            old(self).wf(),
        ensures
            final(self).wf(),
            final(self)@ == advanced(
                old(self)@,
                track_id,
                subscriber_id,
                SubscriptionEvent::KeyFrame { layer: layer_id },
            ),
    {
        self.advance(track_id, subscriber_id, SubscriptionEvent::KeyFrame { layer: layer_id });
    }

    /// Forgets the selection of a subscriber on a track. Nothing changes if
    /// the track is unknown.
    pub fn drop_selection(&mut self, track_id: TrackId, subscriber_id: SessionId)
        requires
            old(self).wf(),
        ensures
            final(self).wf(),
            final(self)@ == without_selection(old(self)@, track_id, subscriber_id),
    {
        match self.track_configs.remove(&track_id) {
            None => {
                assert(self@ =~= old(self)@);
            },
            Some(info) => {
                let mut info = info;
                let ghost before = info@;
                assert(old(self).track_configs@.contains_key(track_id));
                assert(old(self)@.contains_key(track_id));
                assert(track_valid(before));
                info.subscriber_selections.remove(&subscriber_id);
                assert(track_valid(info@)) by {
                    assert forall|s: SessionId| #[trigger]
                        info@.selections.contains_key(s) implies state_valid(
                        info@.layers,
                        info@.selections[s],
                    ) by {
                        assert(before.selections.contains_key(s));
                    }
                }
                self.track_configs.insert(track_id, info);
                assert(self@ =~= without_selection(old(self)@, track_id, subscriber_id));
                assert forall|t: TrackId| #[trigger] self@.contains_key(t) implies track_valid(
                    self@[t],
                ) by {
                    if t != track_id {
                        assert(old(self)@.contains_key(t));
                    }
                }
            },
        }
    }

    /// Asks whether a picture-loss indication is due for a subscription at
    /// `now_ms`. If so, the wait starts again and the upgrade stays pending.
    pub fn poll_pli(&mut self, track_id: TrackId, subscriber_id: SessionId, now_ms: u64) -> (due:
        bool)
        requires
            old(self).wf(),
        ensures
            final(self).wf(),
            due == (old(self)@.contains_key(track_id) && old(
                self,
            )@[track_id].selections.contains_key(subscriber_id) && old(
                self,
            )@[track_id].selections[subscriber_id].spec_pli_due(now_ms)),
            final(self)@ == (if due {
                advanced(
                    old(self)@,
                    track_id,
                    subscriber_id,
                    SubscriptionEvent::PliSent { now_ms },
                )
            } else {
                old(self)@
            }),
    {
        match self.subscription(track_id, subscriber_id) {
            None => false,
            Some(st) => {
                if st.pli_due(now_ms) {
                    self.advance(track_id, subscriber_id, SubscriptionEvent::PliSent { now_ms });
                    true
                } else {
                    false
                }
            },
        }
    }
}

impl Default for DefaultSimulcastManager {
    fn default() -> (m: DefaultSimulcastManager)
        ensures
            m.wf(),
            m@ == Map::<TrackId, TrackView>::empty(),
    {
        DefaultSimulcastManager::new()
    }
}

/// The tracks after a subscriber's selection on one track was forgotten.
pub open spec fn without_selection(
    m: Map<TrackId, TrackView>,
    track_id: TrackId,
    subscriber_id: SessionId,
) -> Map<TrackId, TrackView> {
    if m.contains_key(track_id) {
        m.insert(
            track_id,
            TrackView { selections: m[track_id].selections.remove(subscriber_id), ..m[track_id] },
        )
    } else {
        m
    }
}

/// The tracks after an event went through one subscription; unchanged if
/// the track or the subscription is unknown.
pub open spec fn advanced(
    m: Map<TrackId, TrackView>,
    track_id: TrackId,
    subscriber_id: SessionId,
    ev: SubscriptionEvent,
) -> Map<TrackId, TrackView> {
    if m.contains_key(track_id) && m[track_id].selections.contains_key(subscriber_id) {
        m.insert(
            track_id,
            TrackView {
                selections: m[track_id].selections.insert(
                    subscriber_id,
                    m[track_id].selections[subscriber_id].step(ev),
                ),
                ..m[track_id]
            },
        )
    } else {
        m
    }
}

proof fn lemma_layers_kept(before: TrackView, after: TrackView)
    requires
        track_valid(before),
        after.selections == before.selections,
        after.layers.len() == before.layers.len(),
        forall|i: int|
            0 <= i < before.layers.len() ==> (#[trigger] after.layers[i]).layer_id
                == before.layers[i].layer_id && (before.layers[i].active ==> after.layers[i].active),
    ensures
        track_valid(after),
{
    assert forall|s: SessionId| #[trigger] after.selections.contains_key(s) implies state_valid(
        after.layers,
        after.selections[s],
    ) by {
        assert(before.selections.contains_key(s));
        assert(state_valid(before.layers, before.selections[s]));
    }
}

} // verus!
