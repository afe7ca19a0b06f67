//! Simulcast layers: building a track's layer set, selecting a layer for a
//! subscriber, and switching on key-frame boundaries.
pub mod manager;

use vstd::prelude::*;
use crate::error::{MediaFault, SfuError};

verus! {

/// Identifier of a layer within its track.
pub type LayerId = u8;

/// How long an upgrade waits for a key frame before a picture-loss
/// indication goes to the publisher, in milliseconds.
pub const PLI_WAIT_MS: u64 = 2000;

/// One variant of a simulcast track.
#[derive(Clone, Copy, Debug, PartialEq, Eq, Structural)]
pub struct SimulcastLayer {
    pub layer_id: LayerId,
    pub spatial_id: u8,
    pub temporal_id: u8,
    pub target_bitrate: u32,
    pub active: bool,
}

/// Width and height of a picture, in pixels.
#[derive(Clone, Copy, Debug, PartialEq, Eq, Structural)]
pub struct Resolution {
    pub width: u32,
    pub height: u32,
}

/// The layers a publisher announces: the numbers of spatial and temporal
/// tiers and the target bitrate of each layer, in layer-id order.
pub struct LayerGrid {
    pub spatial_layers: u8,
    pub temporal_layers: u8,
    pub bitrates: Vec<u32>,
}

/// A grid has between 1 and 256 layers, and one bitrate for each.
pub open spec fn grid_valid(spatial: u8, temporal: u8, bitrates: Seq<u32>) -> bool {
    &&& 1 <= spatial * temporal <= 256
    &&& bitrates.len() == spatial * temporal
}

/// The layers of a grid: layer `i` has the spatial index `i / temporal` and
/// the temporal index `i % temporal`; only the base layer starts active.
pub open spec fn grid_layers(spatial: u8, temporal: u8, bitrates: Seq<u32>) -> Seq<
    SimulcastLayer,
> {
    Seq::new(
        (spatial * temporal) as nat,
        |i: int|
            SimulcastLayer {
                layer_id: i as u8,
                spatial_id: (i / (temporal as int)) as u8,
                temporal_id: (i % (temporal as int)) as u8,
                target_bitrate: bitrates[i],
                active: i == 0,
            },
    )
}

/// The layer of spatial index `s` and temporal index `t` has the id
/// `s * temporal + t`.
pub proof fn lemma_grid_layer_id(spatial: u8, temporal: u8, bitrates: Seq<u32>, s: int, t: int)
    requires
        grid_valid(spatial, temporal, bitrates),
        0 <= s < spatial,
        0 <= t < temporal,
    ensures
        0 <= s * temporal + t < spatial * temporal,
        ({
            let l = grid_layers(spatial, temporal, bitrates)[s * temporal + t];
            l.layer_id == s * temporal + t && l.spatial_id == s && l.temporal_id == t
        }),
{
    let tt = temporal as int;
    vstd::arithmetic::div_mod::lemma_fundamental_div_mod_converse(s * tt + t, tt, s, t);
    assert(s * tt + t < spatial * tt) by (nonlinear_arith)
        requires
            0 <= s < spatial,
            0 <= t < tt,
    ;
    assert(0 <= s * tt) by (nonlinear_arith)
        requires
            0 <= s,
            0 <= tt,
    ;
}

/// Builds the layers of a grid, or refuses a grid that is not valid.
pub fn create_layers(grid: &LayerGrid) -> (r: Result<Vec<SimulcastLayer>, SfuError>)
    ensures
        match r {
            Ok(layers) => grid_valid(grid.spatial_layers, grid.temporal_layers, grid.bitrates@)
                && layers@ == grid_layers(
                grid.spatial_layers,
                grid.temporal_layers,
                grid.bitrates@,
            ),
            Err(e) => !grid_valid(grid.spatial_layers, grid.temporal_layers, grid.bitrates@) && e
                == SfuError::Media(MediaFault::InvalidLayers),
        },
{
    let s: usize = grid.spatial_layers as usize;
    let t: usize = grid.temporal_layers as usize;
    assert(s * t <= 255 * 255) by (nonlinear_arith)
        requires
            s <= 255,
            t <= 255,
    ;
    let count: usize = s * t;
    if count < 1 || count > 256 || grid.bitrates.len() != count {
        return Err(SfuError::Media(MediaFault::InvalidLayers));
    }
    assert(t >= 1) by (nonlinear_arith)
        requires
            s * t >= 1,
            s >= 0,
            t >= 0,
    ;
    let mut layers: Vec<SimulcastLayer> = Vec::new();
    let mut i: usize = 0;
    while i < count
        invariant
            i <= count <= 256,
            t >= 1,
            t == grid.temporal_layers,
            count == grid.spatial_layers * grid.temporal_layers,
            grid.bitrates@.len() == count,
            layers@.len() == i,
            forall|k: int|
                0 <= k < i ==> layers@[k] == grid_layers(
                    grid.spatial_layers,
                    grid.temporal_layers,
                    grid.bitrates@,
                )[k],
        decreases count - i,
    {
        let layer = SimulcastLayer {
            layer_id: #[verifier::truncate]
            (i as u8),
            spatial_id: #[verifier::truncate]
            ((i / t) as u8),
            temporal_id: #[verifier::truncate]
            ((i % t) as u8),
            target_bitrate: grid.bitrates[i],
            active: i == 0,
        };
        layers.push(layer);
        i = i + 1;
    }
    assert(layers@ =~= grid_layers(grid.spatial_layers, grid.temporal_layers, grid.bitrates@));
    Ok(layers)
}

/// Whether a layer can be sent within the given bandwidth.
pub open spec fn qualifies(l: SimulcastLayer, available: u32) -> bool {
    l.active && l.target_bitrate <= available
}

/// Whether `r` is the layer to select: the highest layer that qualifies,
/// or, if none does, the lowest active layer.
pub open spec fn is_selection(layers: Seq<SimulcastLayer>, available: u32, r: int) -> bool {
    &&& 0 <= r < layers.len()
    &&& layers[r].active
    &&& if exists|i: int| 0 <= i < layers.len() && qualifies(#[trigger] layers[i], available) {
        qualifies(layers[r], available) && forall|i: int|
            0 <= i < layers.len() && qualifies(#[trigger] layers[i], available) ==> i <= r
    } else {
        forall|i: int| 0 <= i < r ==> !(#[trigger] layers[i]).active
    }
}

/// Picks the layer for the given bandwidth among the layers of a track
/// that has an active layer.
pub fn pick_layer(layers: &Vec<SimulcastLayer>, available: u32) -> (r: usize)
    requires
        exists|i: int| 0 <= i < layers@.len() && (#[trigger] layers@[i]).active,
    ensures
        is_selection(layers@, available, r as int),
{
    let mut best: Option<usize> = None;
    let mut lowest: Option<usize> = None;
    let mut i: usize = 0;
    while i < layers.len()
        invariant
            i <= layers@.len(),
            match best {
                Some(b) => b < i && qualifies(layers@[b as int], available) && forall|k: int|
                    0 <= k < i && qualifies(#[trigger] layers@[k], available) ==> k <= b,
                None => forall|k: int| 0 <= k < i ==> !qualifies(#[trigger] layers@[k], available),
            },
            match lowest {
                Some(l) => l < i && layers@[l as int].active && forall|k: int|
                    0 <= k < l ==> !(#[trigger] layers@[k]).active,
                None => forall|k: int| 0 <= k < i ==> !(#[trigger] layers@[k]).active,
            },
        decreases layers@.len() - i,
    {
        if layers[i].active {
            if lowest.is_none() {
                lowest = Some(i);
            }
            if layers[i].target_bitrate <= available {
                best = Some(i);
            }
        }
        i = i + 1;
    }
    match best {
        Some(b) => b,
        None => {
            match lowest {
                Some(l) => l,
                None => {
                    proof {
                        let w = choose|i: int|
                            0 <= i < layers@.len() && (#[trigger] layers@[i]).active;
                        assert(!layers@[w].active);
                    }
                    0
                },
            }
        },
    }
}

/// Any two selections for the same layers and bandwidth are the same layer.
pub proof fn lemma_selection_unique(layers: Seq<SimulcastLayer>, available: u32, a: int, b: int)
    requires
        is_selection(layers, available, a),
        is_selection(layers, available, b),
    ensures
        a == b,
{
}

/// Where one subscription stands: on a layer, or on a layer while an
/// upgrade waits for a key frame.
#[derive(Clone, Copy, Debug, PartialEq, Eq, Structural)]
pub enum SubscriptionState {
    /// Frames of `layer` and below are forwarded.
    Steady { layer: LayerId },
    /// Frames of `from` and below are forwarded; `to` was selected at
    /// `since_ms` and waits for a key frame.
    PendingUp { from: LayerId, to: LayerId, since_ms: u64 },
}

/// What can happen to a subscription.
#[derive(Clone, Copy, Debug, PartialEq, Eq, Structural)]
pub enum SubscriptionEvent {
    /// The selector chose `layer` at `now_ms`.
    Selected { layer: LayerId, now_ms: u64 },
    /// A key frame of `layer` was forwarded.
    KeyFrame { layer: LayerId },
    /// A picture-loss indication was sent at `now_ms`.
    PliSent { now_ms: u64 },
}

impl SubscriptionState {
    /// The layer whose frames are forwarded.
    pub open spec fn spec_committed(&self) -> LayerId {
        match *self {
            SubscriptionState::Steady { layer } => layer,
            SubscriptionState::PendingUp { from, .. } => from,
        }
    }

    /// The layer whose frames are forwarded.
    #[verifier::when_used_as_spec(spec_committed)]
    pub fn committed(&self) -> (l: LayerId)
        ensures
            l == self.spec_committed(),
    {
        match self {
            SubscriptionState::Steady { layer } => *layer,
            SubscriptionState::PendingUp { from, .. } => *from,
        }
    }

    /// The layer that waits for a key frame, if any.
    pub open spec fn spec_pending(&self) -> Option<LayerId> {
        match *self {
            SubscriptionState::Steady { .. } => None,
            SubscriptionState::PendingUp { to, .. } => Some(to),
        }
    }

    /// The layer that waits for a key frame, if any.
    #[verifier::when_used_as_spec(spec_pending)]
    pub fn pending(&self) -> (l: Option<LayerId>)
        ensures
            l == self.spec_pending(),
    {
        match self {
            SubscriptionState::Steady { .. } => None,
            SubscriptionState::PendingUp { to, .. } => Some(*to),
        }
    }

    /// The state after an event. A selection of the forwarded layer settles
    /// on it; a lower one commits at once; a higher one waits, and keeps its
    /// clock if the same layer was waiting already. A key frame of the
    /// waiting layer commits it. A picture-loss indication restarts the
    /// clock.
    pub open spec fn step(self, ev: SubscriptionEvent) -> SubscriptionState {
        match ev {
            SubscriptionEvent::Selected { layer, now_ms } => {
                if layer <= self.spec_committed() {
                    SubscriptionState::Steady { layer }
                } else {
                    match self {
                        SubscriptionState::PendingUp { from, to, since_ms } if to == layer => self,
                        _ => SubscriptionState::PendingUp {
                            from: self.spec_committed(),
                            to: layer,
                            since_ms: now_ms,
                        },
                    }
                }
            },
            SubscriptionEvent::KeyFrame { layer } => match self {
                SubscriptionState::PendingUp { to, .. } if to == layer => SubscriptionState::Steady {
                    layer,
                },
                _ => self,
            },
            SubscriptionEvent::PliSent { now_ms } => match self {
                SubscriptionState::PendingUp { from, to, .. } => SubscriptionState::PendingUp {
                    from,
                    to,
                    since_ms: now_ms,
                },
                _ => self,
            },
        }
    }

    /// The state after an event.
    pub fn apply(self, ev: SubscriptionEvent) -> (next: SubscriptionState)
        ensures
            next == self.step(ev),
    {
        match ev {
            SubscriptionEvent::Selected { layer, now_ms } => {
                if layer <= self.committed() {
                    SubscriptionState::Steady { layer }
                } else {
                    match self {
                        SubscriptionState::PendingUp { from, to, since_ms } => {
                            if to == layer {
                                self
                            } else {
                                SubscriptionState::PendingUp { from, to: layer, since_ms: now_ms }
                            }
                        },
                        SubscriptionState::Steady { layer: from } => SubscriptionState::PendingUp {
                            from,
                            to: layer,
                            since_ms: now_ms,
                        },
                    }
                }
            },
            SubscriptionEvent::KeyFrame { layer } => match self {
                SubscriptionState::PendingUp { from, to, since_ms } => {
                    if to == layer {
                        SubscriptionState::Steady { layer }
                    } else {
                        self
                    }
                },
                SubscriptionState::Steady { .. } => self,
            },
            SubscriptionEvent::PliSent { now_ms } => match self {
                SubscriptionState::PendingUp { from, to, since_ms } => SubscriptionState::PendingUp {
                    from,
                    to,
                    since_ms: now_ms,
                },
                SubscriptionState::Steady { .. } => self,
            },
        }
    }

    /// Whether a picture-loss indication is due at `now_ms`: an upgrade has
    /// waited for a key frame for the whole wait.
    pub open spec fn spec_pli_due(&self, now_ms: u64) -> bool {
        match *self {
            SubscriptionState::PendingUp { since_ms, .. } => now_ms - since_ms >= PLI_WAIT_MS,
            SubscriptionState::Steady { .. } => false,
        }
    }

    /// Whether a picture-loss indication is due at `now_ms`.
    #[verifier::when_used_as_spec(spec_pli_due)]
    pub fn pli_due(&self, now_ms: u64) -> (due: bool)
        ensures
            due == self.spec_pli_due(now_ms),
    {
        match self {
            SubscriptionState::PendingUp { since_ms, .. } => now_ms >= *since_ms && now_ms
                - *since_ms >= PLI_WAIT_MS,
            SubscriptionState::Steady { .. } => false,
        }
    }
}

/// The forwarded layer rises only when a key frame of the new layer was
/// forwarded, and then to exactly that layer; a selection of a lower layer
/// takes effect at once.
pub proof fn lemma_upgrade_waits_for_key_frame(state: SubscriptionState, ev: SubscriptionEvent)
    ensures
        state.step(ev).spec_committed() > state.spec_committed() ==> ev
            == (SubscriptionEvent::KeyFrame { layer: state.step(ev).spec_committed() })
            && state.spec_pending() == Some(state.step(ev).spec_committed()),
        forall|layer: LayerId, now_ms: u64|
            layer < state.spec_committed() ==> #[trigger] state.step(
                SubscriptionEvent::Selected { layer, now_ms },
            ) == (SubscriptionState::Steady { layer }),
        !(ev is KeyFrame) ==> state.step(ev).spec_committed() <= state.spec_committed(),
{
}

/// Whether a frame of the given indices goes to a subscriber on layer
/// `selected`: layers depend on the layers below them, so exactly the frames
/// at or below the selected indices do.
pub open spec fn spec_forwards(selected: SimulcastLayer, spatial_id: u8, temporal_id: u8) -> bool {
    spatial_id <= selected.spatial_id && temporal_id <= selected.temporal_id
}

/// Whether a frame of the given indices goes to a subscriber on layer
/// `selected`.
#[verifier::when_used_as_spec(spec_forwards)]
pub fn forwards(selected: SimulcastLayer, spatial_id: u8, temporal_id: u8) -> (r: bool)
    ensures
        r == spec_forwards(selected, spatial_id, temporal_id),
{
    spatial_id <= selected.spatial_id && temporal_id <= selected.temporal_id
}

} // verus!
