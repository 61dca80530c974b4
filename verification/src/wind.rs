//! The wind field: ambient velocity as a function of altitude.
//!
//! The field is a stack of layers, each giving the wind from its floor
//! altitude up to the next layer's floor (the topmost layer extends
//! upward without bound). A query below the lowest floor is outside the
//! field's coverage and fails, which a stepper reports as a lookup error.

use vstd::prelude::*;
use crate::point::{Point, Velocity, VelocityModel, velocity_within, COORD_LIMIT, SPEED_LIMIT};

verus! {

/// One layer of the wind field: a constant wind from `floor` upward.
#[derive(Clone, Copy, PartialEq, Eq, Structural, Debug)]
pub struct WindLayer {
    /// Altitude in meters at which this layer begins.
    pub floor: i64,
    /// Ambient wind within the layer.
    pub velocity: Velocity,
}

/// The model of one wind layer.
pub ghost struct LayerModel {
    pub floor: int,
    pub velocity: VelocityModel,
}

impl View for WindLayer {
    type V = LayerModel;

    open spec fn view(&self) -> LayerModel {
        LayerModel { floor: self.floor as int, velocity: self.velocity@ }
    }
}

/// A wind field: layers ordered by strictly increasing floor altitude.
pub struct WindField {
    layers: Vec<WindLayer>,
}

impl View for WindField {
    type V = Seq<LayerModel>;

    closed spec fn view(&self) -> Seq<LayerModel> {
        self.layers@.map_values(|l: WindLayer| l@)
    }
}

/// Well-formed field: floors strictly increase and stay within
/// `COORD_LIMIT`, and every wind component is bounded by `SPEED_LIMIT`.
pub open spec fn wind_wf(w: Seq<LayerModel>) -> bool {
    &&& forall|i: int| 0 <= i < w.len() ==> -COORD_LIMIT <= #[trigger] w[i].floor <= COORD_LIMIT
    &&& forall|i: int| 0 <= i < w.len() ==> velocity_within(#[trigger] w[i].velocity, SPEED_LIMIT as int)
    &&& forall|i: int| 0 < i < w.len() ==> w[i - 1].floor < #[trigger] w[i].floor
}

/// The index of the layer that contains altitude `alt`: the last layer
/// whose floor does not exceed `alt`, or `-1` when no layer does.
pub open spec fn layer_index(w: Seq<LayerModel>, alt: int) -> int
    decreases w.len(),
{
    if w.len() == 0 {
        -1
    } else if w.last().floor <= alt {
        w.len() - 1
    } else {
        layer_index(w.drop_last(), alt)
    }
}

/// The field covers altitude `alt`: some layer contains it.
pub open spec fn covers(w: Seq<LayerModel>, alt: int) -> bool {
    layer_index(w, alt) >= 0
}

/// The ambient wind at altitude `alt` (meaningful when `covers(w, alt)`).
pub open spec fn wind_at(w: Seq<LayerModel>, alt: int) -> VelocityModel {
    w[layer_index(w, alt)].velocity
}

/// The layer index is always below the number of layers.
pub proof fn lemma_layer_index_range(w: Seq<LayerModel>, alt: int)
    ensures
        -1 <= layer_index(w, alt) < w.len(),
    decreases w.len(),
{
    if w.len() > 0 && w.last().floor > alt {
        lemma_layer_index_range(w.drop_last(), alt);
    }
}

/// In a well-formed field the covered wind is bounded by `SPEED_LIMIT`.
pub proof fn lemma_wind_at_bounded(w: Seq<LayerModel>, alt: int)
    requires
        wind_wf(w),
        covers(w, alt),
    ensures
        velocity_within(wind_at(w, alt), SPEED_LIMIT as int),
{
    lemma_layer_index_range(w, alt);
}

impl WindField {
    /// Builds a field from layers, rejecting one that is not well-formed.
    pub fn new(layers: Vec<WindLayer>) -> (r: Option<WindField>)
        ensures
            r is Some <==> wind_wf(layers@.map_values(|l: WindLayer| l@)),
            r is Some ==> r->Some_0@ == layers@.map_values(|l: WindLayer| l@),
    {
        let ghost w = layers@.map_values(|l: WindLayer| l@);
        let mut i: usize = 0;
        while i < layers.len()
            invariant
                0 <= i <= layers.len(),
                w == layers@.map_values(|l: WindLayer| l@),
                w.len() == layers@.len(),
                forall|j: int| 0 <= j < i ==> -COORD_LIMIT <= #[trigger] w[j].floor <= COORD_LIMIT,
                forall|j: int| 0 <= j < i ==> velocity_within(#[trigger] w[j].velocity, SPEED_LIMIT as int),
                forall|j: int| 0 < j < i ==> w[j - 1].floor < #[trigger] w[j].floor,
            decreases layers.len() - i,
        {
            let l = layers[i];
            proof {
                assert(w[i as int] == layers@[i as int]@);
                assert(i > 0 ==> w[i as int - 1] == layers@[i as int - 1]@);
            }
            if l.floor < -COORD_LIMIT || l.floor > COORD_LIMIT {
                proof {
                    assert(!(-COORD_LIMIT <= w[i as int].floor <= COORD_LIMIT));
                }
                return None;
            }
            if l.velocity.north < -SPEED_LIMIT || l.velocity.north > SPEED_LIMIT
                || l.velocity.east < -SPEED_LIMIT || l.velocity.east > SPEED_LIMIT
                || l.velocity.vertical < -SPEED_LIMIT || l.velocity.vertical > SPEED_LIMIT {
                proof {
                    assert(!velocity_within(w[i as int].velocity, SPEED_LIMIT as int));
                }
                return None;
            }
            if i > 0 && layers[i - 1].floor >= l.floor {
                proof {
                    assert(!(w[i as int - 1].floor < w[i as int].floor));
                }
                return None;
            }
            i += 1;
        }
        Some(WindField { layers })
    }

    /// The number of layers in the field.
    pub fn layer_count(&self) -> (r: usize)
        ensures
            r == self@.len(),
    {
        self.layers.len()
    }

    /// The ambient wind at the point's altitude, or `None` when the
    /// point lies below the field's coverage.
    pub fn velocity_at(&self, p: &Point) -> (r: Option<Velocity>)
        ensures
            r is Some <==> covers(self@, p@.altitude),
            r is Some ==> r->Some_0@ == wind_at(self@, p@.altitude),
    {
        let ghost w = self@;
        let mut i: usize = self.layers.len();
        proof {
            assert(w.take(i as int) =~= w);
        }
        while i > 0
            invariant
                0 <= i <= self.layers.len(),
                w == self@,
                w.len() == self.layers@.len(),
                layer_index(w, p@.altitude) == layer_index(w.take(i as int), p@.altitude),
            decreases i,
        {
            if self.layers[i - 1].floor <= p.altitude {
                proof {
                    assert(w.take(i as int).last() == w[i - 1]);
                    assert(layer_index(w.take(i as int), p@.altitude) == i - 1);
                }
                return Some(self.layers[i - 1].velocity);
            }
            proof {
                assert(w.take(i as int).last() == w[i - 1]);
                assert(w.take(i as int).drop_last() =~= w.take(i - 1));
            }
            i -= 1;
        }
        proof {
            assert(w.take(0) =~= Seq::<LayerModel>::empty());
        }
        None
    }
}

} // verus!
