use predictor::point::{Point, Velocity};
use predictor::predictor::{
    predict, Prediction, PredictionProfile, PredictorParams, StandardPrediction, ValBalPrediction,
};
use predictor::wind::{WindField, WindLayer};

fn sample_point(seed: i64) -> Point {
    Point {
        latitude: 37 * seed,
        longitude: -122 * seed,
        altitude: 1_000 + seed,
        time: 1_600_000_000 + seed,
    }
}

fn assert_points_eq(a: &[Point], b: &[Point]) {
    assert_eq!(a.len(), b.len());
    for (x, y) in a.iter().zip(b.iter()) {
        assert_eq!(x, y);
    }
}

#[test]
fn standard_serialization_is_structured_json() {
    let sp = StandardPrediction {
        ascent: vec![sample_point(1), sample_point(2)],
        burst: sample_point(2),
        descent: vec![sample_point(3)],
    };
    let text = Prediction::Standard(sp).serialize();
    let value: serde_json::Value = serde_json::from_str(&text).expect("output is valid JSON");
    assert_eq!(value["ascent"].as_array().unwrap().len(), 2);
    assert_eq!(value["ascent"][0]["latitude"].as_i64(), Some(37));
    assert_eq!(value["ascent"][1]["longitude"].as_i64(), Some(-244));
    assert_eq!(value["burst"]["altitude"].as_i64(), Some(1_002));
    assert_eq!(value["burst"]["time"].as_i64(), Some(1_600_000_002));
    assert_eq!(value["descent"].as_array().unwrap().len(), 1);
    assert_eq!(value["descent"][0]["altitude"].as_i64(), Some(1_003));
}

#[test]
fn valbal_serialization_is_structured_json() {
    let vp = ValBalPrediction { positions: vec![sample_point(5)] };
    let text = Prediction::ValBal(vp).serialize();
    let value: serde_json::Value = serde_json::from_str(&text).expect("output is valid JSON");
    assert_eq!(value["positions"].as_array().unwrap().len(), 1);
    assert_eq!(value["positions"][0]["latitude"].as_i64(), Some(185));
}

#[test]
fn empty_standard_serialization() {
    let sp = StandardPrediction { ascent: vec![], burst: sample_point(0), descent: vec![] };
    let text = Prediction::Standard(sp).serialize();
    assert_eq!(
        text,
        "{\"ascent\":[],\"burst\":{\"latitude\":0,\"longitude\":0,\"altitude\":1000,\
         \"time\":1600000000},\"descent\":[]}"
    );
}

#[test]
fn standard_round_trip_preserves_fields() {
    let sp = StandardPrediction {
        ascent: vec![sample_point(-1), sample_point(0), sample_point(7)],
        burst: sample_point(7),
        descent: vec![sample_point(9), sample_point(i64::MAX / 2)],
    };
    let original = Prediction::Standard(sp);
    let text = original.serialize();
    let decoded = Prediction::deserialize(&text).expect("decoding serialized text succeeds");
    match (original, decoded) {
        (Prediction::Standard(a), Prediction::Standard(b)) => {
            assert_points_eq(&a.ascent, &b.ascent);
            assert_eq!(a.burst, b.burst);
            assert_points_eq(&a.descent, &b.descent);
        }
        _ => panic!("wrong variant after round trip"),
    }
}

#[test]
fn valbal_round_trip_preserves_fields() {
    let vp = ValBalPrediction {
        positions: vec![
            Point { latitude: i64::MIN, longitude: i64::MAX, altitude: -1, time: 0 },
            sample_point(123),
        ],
    };
    let original = Prediction::ValBal(vp);
    let text = original.serialize();
    let decoded = Prediction::deserialize(&text).expect("decoding serialized text succeeds");
    match (original, decoded) {
        (Prediction::ValBal(a), Prediction::ValBal(b)) => {
            assert_points_eq(&a.positions, &b.positions);
        }
        _ => panic!("wrong variant after round trip"),
    }
}

#[test]
fn empty_valbal_round_trip() {
    let original = Prediction::ValBal(ValBalPrediction { positions: vec![] });
    let text = original.serialize();
    assert_eq!(text, "{\"positions\":[]}");
    let decoded = Prediction::deserialize(&text).expect("decoding serialized text succeeds");
    match decoded {
        Prediction::ValBal(b) => assert!(b.positions.is_empty()),
        Prediction::Standard(_) => panic!("wrong variant after round trip"),
    }
}

#[test]
fn predicted_flight_round_trips() {
    let layers = vec![WindLayer {
        floor: -1_000_000,
        velocity: Velocity { north: 4, east: -2, vertical: 0 },
    }];
    let field = WindField::new(layers).unwrap();
    let params = PredictorParams {
        launch: Point { latitude: 10, longitude: 20, altitude: 0, time: 500 },
        profile: PredictionProfile::Standard,
        burst_altitude: 250,
        ascent_rate: 25,
        descent_rate: 50,
        duration: 0,
        max_steps: 1_000,
    };
    let original = predict(params, &field).expect("windy standard run succeeds");
    let text = original.serialize();
    let decoded = Prediction::deserialize(&text).expect("decoding serialized text succeeds");
    match (original, decoded) {
        (Prediction::Standard(a), Prediction::Standard(b)) => {
            assert_points_eq(&a.ascent, &b.ascent);
            assert_eq!(a.burst, b.burst);
            assert_points_eq(&a.descent, &b.descent);
            assert_eq!(a.ascent.len(), 10);
            assert_eq!(a.descent.len(), 5);
        }
        _ => panic!("wrong variant after round trip"),
    }
}

#[test]
fn malformed_text_is_rejected() {
    assert!(Prediction::deserialize("").is_none());
    assert!(Prediction::deserialize("{\"ascent\":[}").is_none());
    assert!(Prediction::deserialize("{\"positions\":[]").is_none());
    assert!(Prediction::deserialize("{\"positions\":[]}x").is_none());
    assert!(
        Prediction::deserialize("{\"positions\":[{\"latitude\":99999999999999999999,\
         \"longitude\":0,\"altitude\":0,\"time\":0}]}")
            .is_none()
    );
}
