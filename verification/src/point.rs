//! Geospatial points and velocity vectors, with their mathematical models.
//!
//! A `Point` is a position sample: angular coordinates in microdegrees,
//! altitude in meters, and a timestamp in seconds. A `Velocity` is a
//! displacement rate in each of those axes per second. One integration step
//! advances a point by a velocity over `STEP_SECONDS`.

use vstd::prelude::*;

verus! {

/// Seconds of simulated time covered by one integration step.
pub const STEP_SECONDS: i64 = 1;

/// Largest coordinate magnitude (latitude, longitude, altitude, time)
/// accepted in a launch point, a wind layer floor, or a burst altitude.
pub const COORD_LIMIT: i64 = 1_000_000_000_000;

/// Largest magnitude of a velocity component (wind or forced rate).
pub const SPEED_LIMIT: i64 = 1_000_000;

/// Largest coordinate magnitude a point may have when a stepping phase
/// starts; leaves room for the drift a full phase can add.
pub const PHASE_START_LIMIT: i64 = 10_000_000_000_000_000;

/// Largest coordinate magnitude at which one more step is known not to
/// overflow a 64-bit coordinate.
pub const ADVANCE_LIMIT: i64 = 0x7000_0000_0000_0000;

/// A position sample of the trajectory.
#[derive(Clone, Copy, PartialEq, Eq, Structural, Debug)]
pub struct Point {
    /// Latitude in microdegrees.
    pub latitude: i64,
    /// Longitude in microdegrees.
    pub longitude: i64,
    /// Altitude in meters.
    pub altitude: i64,
    /// Timestamp in seconds.
    pub time: i64,
}

/// A velocity vector, in units per second matching the point's axes.
#[derive(Clone, Copy, PartialEq, Eq, Structural, Debug)]
pub struct Velocity {
    /// Northward component (microdegrees of latitude per second).
    pub north: i64,
    /// Eastward component (microdegrees of longitude per second).
    pub east: i64,
    /// Upward component (meters per second).
    pub vertical: i64,
}

/// The mathematical model of a point: the same four fields over
/// unbounded integers.
pub ghost struct PointModel {
    pub latitude: int,
    pub longitude: int,
    pub altitude: int,
    pub time: int,
}

/// The mathematical model of a velocity vector.
pub ghost struct VelocityModel {
    pub north: int,
    pub east: int,
    pub vertical: int,
}

impl View for Point {
    type V = PointModel;

    open spec fn view(&self) -> PointModel {
        PointModel {
            latitude: self.latitude as int,
            longitude: self.longitude as int,
            altitude: self.altitude as int,
            time: self.time as int,
        }
    }
}

impl View for Velocity {
    type V = VelocityModel;

    open spec fn view(&self) -> VelocityModel {
        VelocityModel {
            north: self.north as int,
            east: self.east as int,
            vertical: self.vertical as int,
        }
    }
}

/// Every coordinate of `p` has magnitude at most `bound`.
pub open spec fn point_within(p: PointModel, bound: int) -> bool {
    &&& -bound <= p.latitude <= bound
    &&& -bound <= p.longitude <= bound
    &&& -bound <= p.altitude <= bound
    &&& -bound <= p.time <= bound
}

/// Every component of `v` has magnitude at most `bound`.
pub open spec fn velocity_within(v: VelocityModel, bound: int) -> bool {
    &&& -bound <= v.north <= bound
    &&& -bound <= v.east <= bound
    &&& -bound <= v.vertical <= bound
}

/// Component-wise sum of two velocities.
pub open spec fn vel_add(a: VelocityModel, b: VelocityModel) -> VelocityModel {
    VelocityModel {
        north: a.north + b.north,
        east: a.east + b.east,
        vertical: a.vertical + b.vertical,
    }
}

/// A purely vertical velocity: the forced component a stepper adds to
/// the ambient wind.
pub open spec fn forced_velocity(vertical: int) -> VelocityModel {
    VelocityModel { north: 0, east: 0, vertical }
}

/// A point advanced by a velocity over one integration step.
pub open spec fn advance(p: PointModel, v: VelocityModel) -> PointModel {
    PointModel {
        latitude: p.latitude + v.north,
        longitude: p.longitude + v.east,
        altitude: p.altitude + v.vertical,
        time: p.time + STEP_SECONDS,
    }
}

/// The models of a sequence of points.
pub open spec fn view_points(s: Seq<Point>) -> Seq<PointModel> {
    s.map_values(|p: Point| p@)
}

impl Velocity {
    /// Component-wise sum, as the model's `vel_add`.
    pub fn plus(&self, other: &Velocity) -> (r: Velocity)
        requires
            velocity_within(self@, 2 * SPEED_LIMIT as int),
            velocity_within(other@, 2 * SPEED_LIMIT as int),
        ensures
            r@ == vel_add(self@, other@),
    {
        Velocity {
            north: self.north + other.north,
            east: self.east + other.east,
            vertical: self.vertical + other.vertical,
        }
    }
}

impl Point {
    /// This point advanced by `v` over one step, as the model's `advance`.
    pub fn advanced_by(&self, v: &Velocity) -> (r: Point)
        requires
            point_within(self@, ADVANCE_LIMIT as int),
            velocity_within(v@, 2 * SPEED_LIMIT as int),
        ensures
            r@ == advance(self@, v@),
    {
        Point {
            latitude: self.latitude + v.north,
            longitude: self.longitude + v.east,
            altitude: self.altitude + v.vertical,
            time: self.time + STEP_SECONDS,
        }
    }
}

} // verus!
