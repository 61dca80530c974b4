//! The prediction engine: profile dispatch and the two stepping algorithms.
//!
//! Each stepper is specified against a recursive trace model
//! (`phase_trace`, `drift_trace`) that says exactly which sequence of
//! points a run produces, when it succeeds, and which error it reports
//! otherwise. Both steppers carry an iteration budget so that a
//! degenerate parameter set ends in a `NonTerminatingSimulation` error
//! instead of an unbounded loop.

use vstd::prelude::*;
use crate::point::{
    Point, PointModel, Velocity, advance, forced_velocity, point_within, vel_add, view_points,
    COORD_LIMIT, PHASE_START_LIMIT, SPEED_LIMIT,
};
use crate::wind::{covers, wind_at, wind_wf, LayerModel, WindField};
use crate::wind::{lemma_layer_index_range, lemma_wind_at_bounded};

verus! {

/// Largest duration magnitude, in minutes, accepted for a ValBal run.
pub const DURATION_LIMIT: i64 = 100_000_000;

/// Which stepping algorithm a prediction should use.
#[derive(Clone, Copy, PartialEq, Eq, Structural, Debug)]
pub enum PredictionProfile {
    Standard,
    ValBal,
}

/// All parameters that might be passed in to a prediction.
#[derive(Clone, Copy, PartialEq, Eq, Structural, Debug)]
pub struct PredictorParams {
    pub launch: Point,
    pub profile: PredictionProfile,
    /// Ascent ends at the first sample at or above this altitude (meters).
    pub burst_altitude: i64,
    /// Forced upward speed during ascent (meters per second).
    pub ascent_rate: i64,
    /// Forced downward speed during descent (meters per second).
    pub descent_rate: i64,
    /// Float time for the ValBal profile (minutes).
    pub duration: i64,
    /// Budget of integration steps per phase; exceeding it is an error.
    pub max_steps: u32,
}

/// Only those parameters necessary to run a standard profile prediction.
#[derive(Clone, Copy, PartialEq, Eq, Structural, Debug)]
pub struct StandardPredictorParams {
    pub launch: Point,
    pub burst_altitude: i64,
    pub ascent_rate: i64,
    pub descent_rate: i64,
    pub max_steps: u32,
}

/// Only those parameters necessary to run a ValBal prediction.
#[derive(Clone, Copy, PartialEq, Eq, Structural, Debug)]
pub struct ValBalPredictorParams {
    pub launch: Point,
    pub duration: i64,
}

/// Why a prediction failed.
#[derive(Clone, Copy, PartialEq, Eq, Structural, Debug)]
pub enum PredictionError {
    /// A rate was non-positive, so a phase could not make progress.
    InvalidParameters,
    /// The wind field has no value at a queried point.
    WindFieldLookupFailure,
    /// A phase exceeded its iteration budget.
    NonTerminatingSimulation,
}

/// The result of a standard profile prediction.
pub struct StandardPrediction {
    pub ascent: Vec<Point>,
    pub burst: Point,
    pub descent: Vec<Point>,
}

/// The result of a ValBal prediction.
pub struct ValBalPrediction {
    pub positions: Vec<Point>,
}

/// The result of a prediction.
pub enum Prediction {
    Standard(StandardPrediction),
    ValBal(ValBalPrediction),
}

/// The model of a standard prediction.
#[verifier::ext_equal]
pub ghost struct StandardModel {
    pub ascent: Seq<PointModel>,
    pub burst: PointModel,
    pub descent: Seq<PointModel>,
}

/// The model of a ValBal prediction.
#[verifier::ext_equal]
pub ghost struct ValBalModel {
    pub positions: Seq<PointModel>,
}

/// The model of a prediction.
#[verifier::ext_equal]
pub ghost enum PredictionModel {
    Standard(StandardModel),
    ValBal(ValBalModel),
}

impl View for StandardPrediction {
    type V = StandardModel;

    open spec fn view(&self) -> StandardModel {
        StandardModel {
            ascent: view_points(self.ascent@),
            burst: self.burst@,
            descent: view_points(self.descent@),
        }
    }
}

impl View for ValBalPrediction {
    type V = ValBalModel;

    open spec fn view(&self) -> ValBalModel {
        ValBalModel { positions: view_points(self.positions@) }
    }
}

impl View for Prediction {
    type V = PredictionModel;

    open spec fn view(&self) -> PredictionModel {
        match self {
            Prediction::Standard(p) => PredictionModel::Standard(p@),
            Prediction::ValBal(p) => PredictionModel::ValBal(p@),
        }
    }
}

impl PredictorParams {
    /// Machine limits on the inputs: every magnitude small enough that a
    /// full run stays within `i64`.
    pub open spec fn wf(self) -> bool {
        &&& point_within(self.launch@, COORD_LIMIT as int)
        &&& -COORD_LIMIT <= self.burst_altitude <= COORD_LIMIT
        &&& -SPEED_LIMIT <= self.ascent_rate <= SPEED_LIMIT
        &&& -SPEED_LIMIT <= self.descent_rate <= SPEED_LIMIT
        &&& -DURATION_LIMIT <= self.duration <= DURATION_LIMIT
    }

    /// The projection a Standard run sees.
    pub open spec fn standard_view(self) -> StandardPredictorParams {
        StandardPredictorParams {
            launch: self.launch,
            burst_altitude: self.burst_altitude,
            ascent_rate: self.ascent_rate,
            descent_rate: self.descent_rate,
            max_steps: self.max_steps,
        }
    }

    /// The projection a ValBal run sees.
    pub open spec fn valbal_view(self) -> ValBalPredictorParams {
        ValBalPredictorParams { launch: self.launch, duration: self.duration }
    }
}

impl StandardPredictorParams {
    pub open spec fn wf(self) -> bool {
        &&& point_within(self.launch@, COORD_LIMIT as int)
        &&& -COORD_LIMIT <= self.burst_altitude <= COORD_LIMIT
        &&& -SPEED_LIMIT <= self.ascent_rate <= SPEED_LIMIT
        &&& -SPEED_LIMIT <= self.descent_rate <= SPEED_LIMIT
    }
}

impl ValBalPredictorParams {
    pub open spec fn wf(self) -> bool {
        &&& point_within(self.launch@, COORD_LIMIT as int)
        &&& -DURATION_LIMIT <= self.duration <= DURATION_LIMIT
    }
}

/// One integration step: the ambient wind at the point's altitude plus a
/// forced vertical component, applied over `STEP_SECONDS`.
pub open spec fn phase_step(w: Seq<LayerModel>, p: PointModel, forced: int) -> PointModel {
    advance(p, vel_add(wind_at(w, p.altitude), forced_velocity(forced)))
}

/// Whether a phase keeps stepping from point `p`: ascent runs while the
/// altitude is below the threshold, descent while it is above.
pub open spec fn keeps_going(p: PointModel, threshold: int, ascending: bool) -> bool {
    if ascending {
        p.altitude < threshold
    } else {
        p.altitude > threshold
    }
}

/// The trace of one stepping phase: the points recorded after each step,
/// or the error that ends the run. The phase stops as soon as the
/// altitude condition fails; stepping past the budget is
/// `NonTerminatingSimulation`, and a point outside the wind field's
/// coverage is `WindFieldLookupFailure`.
pub open spec fn phase_trace(
    w: Seq<LayerModel>,
    p: PointModel,
    forced: int,
    threshold: int,
    ascending: bool,
    fuel: nat,
) -> Result<Seq<PointModel>, PredictionError>
    decreases fuel,
{
    if !keeps_going(p, threshold, ascending) {
        Ok(Seq::empty())
    } else if fuel == 0 {
        Err(PredictionError::NonTerminatingSimulation)
    } else if !covers(w, p.altitude) {
        Err(PredictionError::WindFieldLookupFailure)
    } else {
        let q = phase_step(w, p, forced);
        match phase_trace(w, q, forced, threshold, ascending, (fuel - 1) as nat) {
            Ok(s) => Ok(seq![q] + s),
            Err(e) => Err(e),
        }
    }
}

/// The trace of a ValBal drift: pure wind, one point per step, until the
/// point's time reaches `end_time`.
pub open spec fn drift_trace(w: Seq<LayerModel>, p: PointModel, end_time: int) -> Result<
    Seq<PointModel>,
    PredictionError,
>
    decreases (if p.time < end_time { end_time - p.time } else { 0 }),
{
    if p.time >= end_time {
        Ok(Seq::empty())
    } else if !covers(w, p.altitude) {
        Err(PredictionError::WindFieldLookupFailure)
    } else {
        let q = phase_step(w, p, 0);
        match drift_trace(w, q, end_time) {
            Ok(s) => Ok(seq![q] + s),
            Err(e) => Err(e),
        }
    }
}

/// What a standard run returns: the ascent trace, the burst point (the
/// last ascent sample, or the launch when the ascent was empty), and the
/// descent trace from the burst point down to the ground.
pub open spec fn standard_spec(w: Seq<LayerModel>, params: StandardPredictorParams) -> Result<
    StandardModel,
    PredictionError,
> {
    match phase_trace(
        w,
        params.launch@,
        params.ascent_rate as int,
        params.burst_altitude as int,
        true,
        params.max_steps as nat,
    ) {
        Ok(asc) => {
            let burst = if asc.len() == 0 {
                params.launch@
            } else {
                asc.last()
            };
            match phase_trace(
                w,
                burst,
                -(params.descent_rate as int),
                0,
                false,
                params.max_steps as nat,
            ) {
                Ok(desc) => Ok(StandardModel { ascent: asc, burst, descent: desc }),
                Err(e) => Err(e),
            }
        },
        Err(e) => Err(e),
    }
}

/// What a ValBal run returns: the drift trace up to the launch time plus
/// the duration (minutes converted to seconds).
pub open spec fn valbal_spec(w: Seq<LayerModel>, params: ValBalPredictorParams) -> Result<
    ValBalModel,
    PredictionError,
> {
    match drift_trace(w, params.launch@, params.launch@.time + params.duration as int * 60) {
        Ok(s) => Ok(ValBalModel { positions: s }),
        Err(e) => Err(e),
    }
}

/// What `predict` returns: validation, projection onto the profile's
/// parameters, and the matching stepper's result.
pub open spec fn predict_spec(w: Seq<LayerModel>, params: PredictorParams) -> Result<
    PredictionModel,
    PredictionError,
> {
    match params.profile {
        PredictionProfile::Standard => {
            if params.ascent_rate <= 0 || params.descent_rate <= 0 {
                Err(PredictionError::InvalidParameters)
            } else {
                match standard_spec(w, params.standard_view()) {
                    Ok(m) => Ok(PredictionModel::Standard(m)),
                    Err(e) => Err(e),
                }
            }
        },
        PredictionProfile::ValBal => {
            match valbal_spec(w, params.valbal_view()) {
                Ok(m) => Ok(PredictionModel::ValBal(m)),
                Err(e) => Err(e),
            }
        },
    }
}

/// Relies on chrono::TimeDelta::minutes and TimeDelta::num_seconds: a
/// delta of `m` minutes (in range, so the constructor cannot panic)
/// holds exactly `m * 60` whole seconds.
#[verifier::external_body]
fn minutes_to_seconds(m: i64) -> (r: i64)
    requires
        -DURATION_LIMIT <= m <= DURATION_LIMIT,
    ensures
        r == m * 60,
{
    chrono::Duration::minutes(m).num_seconds()
}

/// Runs one stepping phase, recording the point after every step, and
/// returns exactly what `phase_trace` says it returns.
fn simulate_phase(
    field: &WindField,
    start: Point,
    forced: i64,
    threshold: i64,
    ascending: bool,
    max_steps: u32,
) -> (r: Result<Vec<Point>, PredictionError>)
    requires
        wind_wf(field@),
        point_within(start@, PHASE_START_LIMIT as int),
        -SPEED_LIMIT <= forced <= SPEED_LIMIT,
    ensures
        (match phase_trace(
            field@,
            start@,
            forced as int,
            threshold as int,
            ascending,
            max_steps as nat,
        ) {
            Ok(s) => r is Ok && view_points(r->Ok_0@) == s,
            Err(e) => r == Err::<Vec<Point>, PredictionError>(e),
        }),
{
    let ghost w = field@;
    let ghost total = phase_trace(
        w,
        start@,
        forced as int,
        threshold as int,
        ascending,
        max_steps as nat,
    );
    let mut current: Point = start;
    let mut out: Vec<Point> = Vec::new();
    let mut steps: u32 = 0;
    let mut going: bool = if ascending {
        current.altitude < threshold
    } else {
        current.altitude > threshold
    };
    proof {
        assert(view_points(out@) =~= Seq::<PointModel>::empty());
    }
    while going
        invariant
            wind_wf(w),
            w == field@,
            -SPEED_LIMIT <= forced <= SPEED_LIMIT,
            steps <= max_steps,
            out@.len() == steps,
            going == keeps_going(current@, threshold as int, ascending),
            point_within(current@, PHASE_START_LIMIT as int + steps as int * 2_000_000),
            total == phase_trace(
                w,
                start@,
                forced as int,
                threshold as int,
                ascending,
                max_steps as nat,
            ),
            total == (match phase_trace(
                w,
                current@,
                forced as int,
                threshold as int,
                ascending,
                (max_steps - steps) as nat,
            ) {
                Ok(s) => Ok::<Seq<PointModel>, PredictionError>(view_points(out@) + s),
                Err(e) => Err::<Seq<PointModel>, PredictionError>(e),
            }),
        decreases max_steps - steps,
    {
        if steps == max_steps {
            return Err(PredictionError::NonTerminatingSimulation);
        }
        match field.velocity_at(&current) {
            None => {
                return Err(PredictionError::WindFieldLookupFailure);
            },
            Some(wind) => {
                proof {
                    lemma_wind_at_bounded(w, current@.altitude);
                }
                let combined = wind.plus(
                    &Velocity { north: 0, east: 0, vertical: forced },
                );
                let next = current.advanced_by(&combined);
                proof {
                    assert(next@ == phase_step(w, current@, forced as int));
                    assert(view_points(out@.push(next)) =~= view_points(out@) + seq![next@]);
                    let rest = phase_trace(
                        w,
                        next@,
                        forced as int,
                        threshold as int,
                        ascending,
                        (max_steps - steps - 1) as nat,
                    );
                    if rest is Ok {
                        assert((view_points(out@) + seq![next@]) + rest->Ok_0 =~= view_points(out@)
                            + (seq![next@] + rest->Ok_0));
                    }
                }
                current = next;
                out.push(current);
                steps = steps + 1;
                going = if ascending {
                    current.altitude < threshold
                } else {
                    current.altitude > threshold
                };
            },
        }
    }
    proof {
        assert(view_points(out@) + Seq::<PointModel>::empty() =~= view_points(out@));
    }
    Ok(out)
}

/// Simulates ascent to the burst altitude and descent to the ground,
/// returning exactly what `standard_spec` says.
pub fn standard_predict(params: StandardPredictorParams, field: &WindField) -> (r: Result<
    Prediction,
    PredictionError,
>)
    requires
        wind_wf(field@),
        params.wf(),
    ensures
        (match standard_spec(field@, params) {
            Ok(m) => r is Ok && r->Ok_0@ == PredictionModel::Standard(m),
            Err(e) => r == Err::<Prediction, PredictionError>(e),
        }),
{
    proof {
        lemma_phase_trace_bounds(
            field@,
            params.launch@,
            params.ascent_rate as int,
            params.burst_altitude as int,
            true,
            params.max_steps as nat,
            COORD_LIMIT as int,
        );
    }
    match simulate_phase(
        field,
        params.launch,
        params.ascent_rate,
        params.burst_altitude,
        true,
        params.max_steps,
    ) {
        Err(e) => Err(e),
        Ok(ascent) => {
            let burst: Point = if ascent.len() == 0 {
                params.launch
            } else {
                ascent[ascent.len() - 1]
            };
            match simulate_phase(field, burst, -params.descent_rate, 0, false, params.max_steps) {
                Err(e) => Err(e),
                Ok(descent) => Ok(
                    Prediction::Standard(StandardPrediction { ascent, burst, descent }),
                ),
            }
        },
    }
}

/// Simulates free drift under wind alone for the given duration,
/// returning exactly what `valbal_spec` says.
pub fn valbal_predict(params: ValBalPredictorParams, field: &WindField) -> (r: Result<
    Prediction,
    PredictionError,
>)
    requires
        wind_wf(field@),
        params.wf(),
    ensures
        (match valbal_spec(field@, params) {
            Ok(m) => r is Ok && r->Ok_0@ == PredictionModel::ValBal(m),
            Err(e) => r == Err::<Prediction, PredictionError>(e),
        }),
{
    let ghost w = field@;
    let launch_time: i64 = params.launch.time;
    let end_time: i64 = launch_time + minutes_to_seconds(params.duration);
    let ghost total = drift_trace(w, params.launch@, end_time as int);
    let mut current: Point = params.launch;
    let mut out: Vec<Point> = Vec::new();
    proof {
        assert(view_points(out@) =~= Seq::<PointModel>::empty());
    }
    while current.time < end_time
        invariant
            wind_wf(w),
            w == field@,
            params.wf(),
            launch_time as int == params.launch@.time,
            end_time as int == params.launch@.time + params.duration as int * 60,
            -DURATION_LIMIT * 60 - COORD_LIMIT <= end_time <= DURATION_LIMIT * 60 + COORD_LIMIT,
            current@.time == launch_time as int + out@.len(),
            current@.time <= end_time || out@.len() == 0,
            point_within(current@, COORD_LIMIT as int + out@.len() * 2_000_000),
            out@.len() <= DURATION_LIMIT * 60,
            total == drift_trace(w, params.launch@, end_time as int),
            total == (match drift_trace(w, current@, end_time as int) {
                Ok(s) => Ok::<Seq<PointModel>, PredictionError>(view_points(out@) + s),
                Err(e) => Err::<Seq<PointModel>, PredictionError>(e),
            }),
        decreases end_time - current.time,
    {
        match field.velocity_at(&current) {
            None => {
                return Err(PredictionError::WindFieldLookupFailure);
            },
            Some(wind) => {
                proof {
                    lemma_wind_at_bounded(w, current@.altitude);
                }
                let next = current.advanced_by(&wind);
                proof {
                    assert(wind@ == vel_add(wind@, forced_velocity(0)));
                    assert(next@ == phase_step(w, current@, 0));
                    assert(view_points(out@.push(next)) =~= view_points(out@) + seq![next@]);
                    let rest = drift_trace(w, next@, end_time as int);
                    if rest is Ok {
                        assert((view_points(out@) + seq![next@]) + rest->Ok_0 =~= view_points(out@)
                            + (seq![next@] + rest->Ok_0));
                    }
                }
                current = next;
                out.push(current);
            },
        }
    }
    proof {
        assert(view_points(out@) + Seq::<PointModel>::empty() =~= view_points(out@));
    }
    Ok(Prediction::ValBal(ValBalPrediction { positions: out }))
}

/// Dispatches on the profile: validates the rates, projects the
/// profile's parameters out of the bundle, and runs the matching
/// stepper. Returns exactly what `predict_spec` says.
pub fn predict(params: PredictorParams, field: &WindField) -> (r: Result<
    Prediction,
    PredictionError,
>)
    requires
        wind_wf(field@),
        params.wf(),
    ensures
        (match predict_spec(field@, params) {
            Ok(m) => r is Ok && r->Ok_0@ == m,
            Err(e) => r == Err::<Prediction, PredictionError>(e),
        }),
{
    match params.profile {
        PredictionProfile::Standard => {
            if params.ascent_rate <= 0 || params.descent_rate <= 0 {
                return Err(PredictionError::InvalidParameters);
            }
            standard_predict(
                StandardPredictorParams {
                    launch: params.launch,
                    burst_altitude: params.burst_altitude,
                    ascent_rate: params.ascent_rate,
                    descent_rate: params.descent_rate,
                    max_steps: params.max_steps,
                },
                field,
            )
        },
        PredictionProfile::ValBal => {
            valbal_predict(
                ValBalPredictorParams { launch: params.launch, duration: params.duration },
                field,
            )
        },
    }
}

/// A successful phase trace is a chain: each sample is one step from the
/// one before it, every sample but the last still met the phase's
/// condition at the step that produced its successor, and the final
/// state fails the condition.
pub proof fn lemma_phase_trace_chain(
    w: Seq<LayerModel>,
    p: PointModel,
    forced: int,
    threshold: int,
    ascending: bool,
    fuel: nat,
)
    ensures
        (match phase_trace(w, p, forced, threshold, ascending, fuel) {
            Ok(s) => {
                &&& s.len() <= fuel
                &&& forall|i: int|
                    0 <= i < s.len() ==> #[trigger] s[i] == phase_step(
                        w,
                        (if i == 0 { p } else { s[i - 1] }),
                        forced,
                    )
                &&& forall|i: int|
                    0 <= i < s.len() ==> keeps_going(
                        (if i == 0 { p } else { #[trigger] s[i - 1] }),
                        threshold,
                        ascending,
                    )
                &&& forall|i: int|
                    0 <= i < s.len() ==> covers(w, (if i == 0 { p } else { #[trigger] s[i - 1] }).altitude)
                &&& !keeps_going((if s.len() == 0 { p } else { s.last() }), threshold, ascending)
            },
            Err(_) => true,
        }),
    decreases fuel,
{
    if keeps_going(p, threshold, ascending) && fuel > 0 && covers(w, p.altitude) {
        let q = phase_step(w, p, forced);
        lemma_phase_trace_chain(w, q, forced, threshold, ascending, (fuel - 1) as nat);
        match phase_trace(w, q, forced, threshold, ascending, (fuel - 1) as nat) {
            Ok(rest) => {
                let s = seq![q] + rest;
                assert forall|i: int| 0 <= i < s.len() implies #[trigger] s[i] == phase_step(
                    w,
                    (if i == 0 { p } else { s[i - 1] }),
                    forced,
                ) by {
                    if i > 0 {
                        assert(s[i] == rest[i - 1]);
                        assert(rest[i - 1] == phase_step(
                            w,
                            (if i - 1 == 0 { q } else { rest[i - 2] }),
                            forced,
                        ));
                    }
                }
                assert forall|i: int| 0 <= i < s.len() implies keeps_going(
                    (if i == 0 { p } else { #[trigger] s[i - 1] }),
                    threshold,
                    ascending,
                ) && covers(w, (if i == 0 { p } else { s[i - 1] }).altitude) by {
                    if i > 0 {
                        assert(s[i - 1] == (if i - 1 == 0 { q } else { rest[i - 2] }));
                    }
                }
                if rest.len() == 0 {
                    assert(s.last() == q);
                } else {
                    assert(s.last() == rest.last());
                }
            },
            Err(_) => {},
        }
    }
}

/// Every sample of a successful phase trace stays within the start
/// point's coordinate bound plus the drift its steps can add.
pub proof fn lemma_phase_trace_bounds(
    w: Seq<LayerModel>,
    p: PointModel,
    forced: int,
    threshold: int,
    ascending: bool,
    fuel: nat,
    b: int,
)
    requires
        wind_wf(w),
        -SPEED_LIMIT <= forced <= SPEED_LIMIT,
        point_within(p, b),
    ensures
        (match phase_trace(w, p, forced, threshold, ascending, fuel) {
            Ok(s) => {
                &&& s.len() <= fuel
                &&& forall|i: int|
                    0 <= i < s.len() ==> point_within(#[trigger] s[i], b + (i + 1) * 2_000_000)
            },
            Err(_) => true,
        }),
    decreases fuel,
{
    if keeps_going(p, threshold, ascending) && fuel > 0 && covers(w, p.altitude) {
        let q = phase_step(w, p, forced);
        lemma_wind_at_bounded(w, p.altitude);
        lemma_phase_trace_bounds(
            w,
            q,
            forced,
            threshold,
            ascending,
            (fuel - 1) as nat,
            b + 2_000_000,
        );
        match phase_trace(w, q, forced, threshold, ascending, (fuel - 1) as nat) {
            Ok(rest) => {
                let s = seq![q] + rest;
                assert forall|i: int| 0 <= i < s.len() implies point_within(
                    #[trigger] s[i],
                    b + (i + 1) * 2_000_000,
                ) by {
                    if i == 0 {
                        assert(point_within(q, b + 2_000_000));
                    } else {
                        assert(s[i] == rest[i - 1]);
                        assert(point_within(rest[i - 1], (b + 2_000_000) + i * 2_000_000));
                    }
                }
            },
            Err(_) => {},
        }
    }
}

/// A successful drift trace is a chain of single steps: its length is
/// exactly the number of seconds between the start and the end time,
/// each sample is one step from the one before, and each sample's time
/// is one step later.
pub proof fn lemma_drift_trace_props(w: Seq<LayerModel>, p: PointModel, end_time: int)
    ensures
        (match drift_trace(w, p, end_time) {
            Ok(s) => {
                &&& s.len() == (if p.time < end_time { end_time - p.time } else { 0 })
                &&& forall|i: int|
                    0 <= i < s.len() ==> #[trigger] s[i] == phase_step(
                        w,
                        (if i == 0 { p } else { s[i - 1] }),
                        0,
                    )
                &&& forall|i: int| 0 <= i < s.len() ==> #[trigger] s[i].time == p.time + i + 1
            },
            Err(_) => true,
        }),
    decreases (if p.time < end_time { end_time - p.time } else { 0 }),
{
    if p.time >= end_time {
    } else if !covers(w, p.altitude) {
    } else {
        let q = phase_step(w, p, 0);
        lemma_drift_trace_props(w, q, end_time);
        match drift_trace(w, q, end_time) {
            Ok(rest) => {
                let s = seq![q] + rest;
                assert forall|i: int| 0 <= i < s.len() implies #[trigger] s[i] == phase_step(
                    w,
                    (if i == 0 { p } else { s[i - 1] }),
                    0,
                ) && s[i].time == p.time + i + 1 by {
                    if i > 0 {
                        assert(s[i] == rest[i - 1]);
                        assert(rest[i - 1] == phase_step(
                            w,
                            (if i - 1 == 0 { q } else { rest[i - 2] }),
                            0,
                        ));
                        assert(rest[i - 1].time == q.time + (i - 1) + 1);
                    }
                }
            },
            Err(_) => {},
        }
    }
}

/// With the launch already at or above the burst altitude, a successful
/// standard run records no ascent samples and bursts at the launch
/// point itself.
pub proof fn lemma_standard_launch_at_burst(w: Seq<LayerModel>, params: StandardPredictorParams)
    requires
        params.launch@.altitude >= params.burst_altitude,
        standard_spec(w, params) is Ok,
    ensures
        standard_spec(w, params)->Ok_0.ascent == Seq::<PointModel>::empty(),
        standard_spec(w, params)->Ok_0.burst == params.launch@,
{
}

/// When no wind layer's downdraft exceeds the ascent rate, a successful
/// standard run's ascent altitudes never decrease, starting from the
/// launch altitude, and the final ascent sample is at or above the
/// burst altitude.
pub proof fn lemma_standard_ascent_monotone(w: Seq<LayerModel>, params: StandardPredictorParams)
    requires
        standard_spec(w, params) is Ok,
        forall|i: int|
            0 <= i < w.len() ==> #[trigger] w[i].velocity.vertical + params.ascent_rate >= 0,
    ensures
        ({
            let asc = standard_spec(w, params)->Ok_0.ascent;
            &&& forall|i: int|
                0 < i < asc.len() ==> #[trigger] asc[i].altitude >= asc[i - 1].altitude
            &&& asc.len() > 0 ==> asc[0].altitude >= params.launch@.altitude
            &&& asc.len() > 0 ==> asc.last().altitude >= params.burst_altitude
        }),
{
    lemma_phase_trace_chain(
        w,
        params.launch@,
        params.ascent_rate as int,
        params.burst_altitude as int,
        true,
        params.max_steps as nat,
    );
    let asc = standard_spec(w, params)->Ok_0.ascent;
    assert forall|i: int| 0 <= i < asc.len() implies #[trigger] asc[i].altitude >= (if i == 0 {
        params.launch@
    } else {
        asc[i - 1]
    }).altitude by {
        let prev = if i == 0 {
            params.launch@
        } else {
            asc[i - 1]
        };
        assert(asc[i] == phase_step(w, prev, params.ascent_rate as int));
        assert(covers(w, prev.altitude));
        lemma_layer_index_range(w, prev.altitude);
    }
}

/// When no wind layer's updraft exceeds the descent rate, a successful
/// standard run's descent altitudes never increase, every sample but the
/// last is above the ground, and the final sample is the first at or
/// below it.
#[verifier::rlimit(60)]
pub proof fn lemma_standard_descent_monotone(w: Seq<LayerModel>, params: StandardPredictorParams)
    requires
        standard_spec(w, params) is Ok,
        forall|i: int|
            0 <= i < w.len() ==> #[trigger] w[i].velocity.vertical - params.descent_rate <= 0,
    ensures
        ({
            let m = standard_spec(w, params)->Ok_0;
            &&& forall|i: int|
                0 < i < m.descent.len() ==> #[trigger] m.descent[i].altitude <= m.descent[i
                    - 1].altitude
            &&& m.descent.len() > 0 ==> m.descent[0].altitude <= m.burst.altitude
            &&& forall|i: int| 0 <= i < m.descent.len() - 1 ==> #[trigger] m.descent[i].altitude > 0
            &&& m.descent.len() > 0 ==> m.descent.last().altitude <= 0
        }),
{
    let m = standard_spec(w, params)->Ok_0;
    let burst = m.burst;
    let desc = m.descent;
    let drate = -(params.descent_rate as int);
    assert(phase_trace(w, burst, drate, 0, false, params.max_steps as nat) == Ok::<
        Seq<PointModel>,
        PredictionError,
    >(desc));
    lemma_phase_trace_chain(w, burst, drate, 0, false, params.max_steps as nat);
    assert forall|i: int| 0 <= i < desc.len() implies #[trigger] desc[i].altitude <= (if i == 0 {
        burst
    } else {
        desc[i - 1]
    }).altitude by {
        let prev = if i == 0 {
            burst
        } else {
            desc[i - 1]
        };
        assert(desc[i] == phase_step(w, prev, drate));
        assert(covers(w, prev.altitude));
        lemma_layer_index_range(w, prev.altitude);
    }
    assert forall|i: int| 0 <= i < desc.len() - 1 implies #[trigger] desc[i].altitude > 0 by {
        let j = i + 1;
        assert(keeps_going(
            (if j == 0 {
                burst
            } else {
                desc[j - 1]
            }),
            0,
            false,
        ));
    }
}

/// A non-positive duration yields an empty ValBal position sequence.
pub proof fn lemma_valbal_zero_duration(w: Seq<LayerModel>, params: ValBalPredictorParams)
    requires
        params.duration <= 0,
    ensures
        valbal_spec(w, params) == Ok::<ValBalModel, PredictionError>(
            ValBalModel { positions: Seq::empty() },
        ),
{
    assert(params.duration as int * 60 <= 0);
}

/// Each sample of a successful ValBal run is strictly later than the one
/// before it (and than the launch), and the final sample's time is at or
/// past the launch time plus the duration.
pub proof fn lemma_valbal_times_increase(w: Seq<LayerModel>, params: ValBalPredictorParams)
    requires
        valbal_spec(w, params) is Ok,
    ensures
        ({
            let s = valbal_spec(w, params)->Ok_0.positions;
            &&& forall|i: int| 0 < i < s.len() ==> #[trigger] s[i].time > s[i - 1].time
            &&& s.len() > 0 ==> s[0].time > params.launch@.time
            &&& s.len() > 0 ==> s.last().time >= params.launch@.time + params.duration as int * 60
        }),
{
    lemma_drift_trace_props(w, params.launch@, params.launch@.time + params.duration as int * 60);
}

} // verus!
