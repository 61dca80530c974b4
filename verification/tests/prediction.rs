use predictor::point::{Point, Velocity};
use predictor::predictor::{
    predict, standard_predict, valbal_predict, Prediction, PredictionError, PredictionProfile,
    PredictorParams, StandardPredictorParams, ValBalPredictorParams,
};
use predictor::wind::{WindField, WindLayer};

fn launch_at(altitude: i64, time: i64) -> Point {
    Point { latitude: 0, longitude: 0, altitude, time }
}

fn calm_field() -> WindField {
    let layers = vec![WindLayer {
        floor: -1_000_000,
        velocity: Velocity { north: 0, east: 0, vertical: 0 },
    }];
    WindField::new(layers).expect("a single calm layer is well-formed")
}

fn params(profile: PredictionProfile) -> PredictorParams {
    PredictorParams {
        launch: launch_at(0, 1_000),
        profile,
        burst_altitude: 1_000,
        ascent_rate: 5,
        descent_rate: 5,
        duration: 0,
        max_steps: 100_000,
    }
}

#[test]
fn standard_zero_wind_scenario() {
    let field = calm_field();
    let p = params(PredictionProfile::Standard);
    let result = predict(p, &field).expect("calm standard run succeeds");
    match result {
        Prediction::Standard(sp) => {
            assert_eq!(sp.ascent.len(), 200);
            for (i, pt) in sp.ascent.iter().enumerate() {
                assert_eq!(pt.altitude, 5 * (i as i64 + 1));
                assert_eq!(pt.latitude, 0);
                assert_eq!(pt.longitude, 0);
            }
            assert_eq!(sp.burst.altitude, 1_000);
            assert_eq!(sp.burst, sp.ascent[199]);
            assert_eq!(sp.descent.len(), 200);
            for (i, pt) in sp.descent.iter().enumerate() {
                assert_eq!(pt.altitude, 1_000 - 5 * (i as i64 + 1));
            }
            assert!(sp.descent[199].altitude <= 0);
            assert_eq!(sp.descent[199].altitude, 0);
        }
        Prediction::ValBal(_) => panic!("wrong variant"),
    }
}

#[test]
fn standard_launch_above_burst_has_empty_ascent() {
    let field = calm_field();
    let mut p = params(PredictionProfile::Standard);
    p.launch = launch_at(2_000, 1_000);
    let result = predict(p, &field).expect("descent-only run succeeds");
    match result {
        Prediction::Standard(sp) => {
            assert!(sp.ascent.is_empty());
            assert_eq!(sp.burst, p.launch);
            assert_eq!(sp.descent.len(), 400);
        }
        Prediction::ValBal(_) => panic!("wrong variant"),
    }
}

#[test]
fn constant_north_wind_moves_each_ascent_step_north() {
    let layers = vec![WindLayer {
        floor: -1_000_000,
        velocity: Velocity { north: 1, east: 0, vertical: 0 },
    }];
    let field = WindField::new(layers).unwrap();
    let p = params(PredictionProfile::Standard);
    let result = predict(p, &field).expect("steady-wind run succeeds");
    match result {
        Prediction::Standard(sp) => {
            assert_eq!(sp.ascent.len(), 200);
            let mut prev_lat = 0;
            for pt in &sp.ascent {
                assert_eq!(pt.latitude - prev_lat, 1);
                prev_lat = pt.latitude;
            }
        }
        Prediction::ValBal(_) => panic!("wrong variant"),
    }
}

#[test]
fn valbal_zero_duration_is_empty() {
    let field = calm_field();
    let p = params(PredictionProfile::ValBal);
    let result = predict(p, &field).expect("zero-duration run succeeds");
    match result {
        Prediction::ValBal(vp) => assert!(vp.positions.is_empty()),
        Prediction::Standard(_) => panic!("wrong variant"),
    }
}

#[test]
fn valbal_negative_duration_is_empty() {
    let field = calm_field();
    let mut p = params(PredictionProfile::ValBal);
    p.duration = -30;
    let result = predict(p, &field).expect("negative-duration run succeeds");
    match result {
        Prediction::ValBal(vp) => assert!(vp.positions.is_empty()),
        Prediction::Standard(_) => panic!("wrong variant"),
    }
}

#[test]
fn valbal_times_increase_and_cover_duration() {
    let layers = vec![WindLayer {
        floor: -1_000_000,
        velocity: Velocity { north: 2, east: -3, vertical: 1 },
    }];
    let field = WindField::new(layers).unwrap();
    let mut p = params(PredictionProfile::ValBal);
    p.duration = 2;
    let result = predict(p, &field).expect("drift run succeeds");
    match result {
        Prediction::ValBal(vp) => {
            assert_eq!(vp.positions.len(), 120);
            let mut prev_time = p.launch.time;
            for pt in &vp.positions {
                assert!(pt.time > prev_time);
                prev_time = pt.time;
            }
            assert!(vp.positions[119].time >= p.launch.time + 120);
            assert_eq!(vp.positions[119].latitude, 240);
            assert_eq!(vp.positions[119].longitude, -360);
            assert_eq!(vp.positions[119].altitude, 120);
        }
        Prediction::Standard(_) => panic!("wrong variant"),
    }
}

#[test]
fn non_positive_rates_are_invalid_parameters() {
    let field = calm_field();
    let mut p = params(PredictionProfile::Standard);
    p.ascent_rate = 0;
    assert!(matches!(predict(p, &field), Err(PredictionError::InvalidParameters)));
    let mut q = params(PredictionProfile::Standard);
    q.descent_rate = -5;
    assert!(matches!(predict(q, &field), Err(PredictionError::InvalidParameters)));
}

#[test]
fn point_below_coverage_is_lookup_failure() {
    let layers = vec![WindLayer {
        floor: 0,
        velocity: Velocity { north: 0, east: 0, vertical: 0 },
    }];
    let field = WindField::new(layers).unwrap();
    let mut p = params(PredictionProfile::ValBal);
    p.launch = launch_at(-100, 1_000);
    p.duration = 1;
    assert!(matches!(predict(p, &field), Err(PredictionError::WindFieldLookupFailure)));
}

#[test]
fn downdraft_cancelling_ascent_exhausts_the_budget() {
    let layers = vec![WindLayer {
        floor: -1_000_000,
        velocity: Velocity { north: 0, east: 0, vertical: -5 },
    }];
    let field = WindField::new(layers).unwrap();
    let mut p = params(PredictionProfile::Standard);
    p.max_steps = 50;
    assert!(matches!(predict(p, &field), Err(PredictionError::NonTerminatingSimulation)));
}

#[test]
fn steppers_accept_their_projected_params() {
    let field = calm_field();
    let sp = StandardPredictorParams {
        launch: launch_at(0, 0),
        burst_altitude: 10,
        ascent_rate: 10,
        descent_rate: 10,
        max_steps: 100,
    };
    match standard_predict(sp, &field).unwrap() {
        Prediction::Standard(s) => {
            assert_eq!(s.ascent.len(), 1);
            assert_eq!(s.burst.altitude, 10);
            assert_eq!(s.descent.len(), 1);
        }
        Prediction::ValBal(_) => panic!("wrong variant"),
    }
    let vp = ValBalPredictorParams { launch: launch_at(0, 0), duration: 1 };
    match valbal_predict(vp, &field).unwrap() {
        Prediction::ValBal(v) => assert_eq!(v.positions.len(), 60),
        Prediction::Standard(_) => panic!("wrong variant"),
    }
}

#[test]
fn layered_field_looks_up_the_containing_layer() {
    let layers = vec![
        WindLayer { floor: 0, velocity: Velocity { north: 1, east: 0, vertical: 0 } },
        WindLayer { floor: 5_000, velocity: Velocity { north: 7, east: 0, vertical: 0 } },
    ];
    let field = WindField::new(layers).unwrap();
    assert_eq!(field.layer_count(), 2);
    let low = Point { latitude: 0, longitude: 0, altitude: 100, time: 0 };
    let high = Point { latitude: 0, longitude: 0, altitude: 9_000, time: 0 };
    let below = Point { latitude: 0, longitude: 0, altitude: -1, time: 0 };
    assert_eq!(field.velocity_at(&low), Some(Velocity { north: 1, east: 0, vertical: 0 }));
    assert_eq!(field.velocity_at(&high), Some(Velocity { north: 7, east: 0, vertical: 0 }));
    assert_eq!(field.velocity_at(&below), None);
}

#[test]
fn ill_formed_fields_are_rejected() {
    let unsorted = vec![
        WindLayer { floor: 5_000, velocity: Velocity { north: 0, east: 0, vertical: 0 } },
        WindLayer { floor: 0, velocity: Velocity { north: 0, east: 0, vertical: 0 } },
    ];
    assert!(WindField::new(unsorted).is_none());
    let too_fast = vec![WindLayer {
        floor: 0,
        velocity: Velocity { north: 2_000_000, east: 0, vertical: 0 },
    }];
    assert!(WindField::new(too_fast).is_none());
}

#[test]
fn velocities_combine_componentwise() {
    let a = Velocity { north: 1, east: -2, vertical: 3 };
    let b = Velocity { north: 10, east: 20, vertical: -30 };
    assert_eq!(a.plus(&b), Velocity { north: 11, east: 18, vertical: -27 });
    let p = Point { latitude: 100, longitude: 200, altitude: 300, time: 400 };
    let q = p.advanced_by(&a);
    assert_eq!(q, Point { latitude: 101, longitude: 198, altitude: 303, time: 401 });
}
