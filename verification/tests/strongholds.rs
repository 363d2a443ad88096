use tuxinjector::json::{parse_json, Json};
use tuxinjector::nbb_data::{
    angle_inputs, apply_blind_event, apply_boat_event, apply_info_messages_event, apply_stronghold_event,
    clear_blind, clear_boat, clear_info_messages, clear_stronghold, compared_corrections,
    read_stronghold_event, reset_nbb_data, stamp_update, NbbBlind, NbbInfoMessage, NinjabrainData,
    turned_angles, StrongholdMath, EPSILON_BITS, INFINITY_BITS,
};

fn json(text: &str) -> Json {
    parse_json(text).expect("json")
}

fn f(bits: u64) -> f64 {
    f64::from_bits(bits)
}

fn normalize(mut a: f64) -> f64 {
    while a > 180.0 {
        a -= 360.0;
    }
    while a < -180.0 {
        a += 360.0;
    }
    a
}

fn apply(d: &mut NinjabrainData, text: &str) {
    let e = read_stronghold_event(&json(text));
    let correction_delta = match compared_corrections(d, &e) {
        Some((new, old)) => f(new) - f(old),
        None => 0.0,
    };
    let angle_diff = match turned_angles(&e) {
        Some((last, first)) => f(last) - f(first),
        None => 0.0,
    };
    let angles = match angle_inputs(&e) {
        Some(inputs) => inputs
            .targets
            .iter()
            .map(|(x, z)| {
                let dx = *x as f64 - f(inputs.player.x);
                let dz = *z as f64 - f(inputs.player.z);
                let angle = -dx.atan2(dz) * 180.0 / std::f64::consts::PI;
                let needed = normalize(angle - f(inputs.player.horizontal_angle));
                (angle.to_bits(), needed.to_bits())
            })
            .collect(),
        None => Vec::new(),
    };
    let math = StrongholdMath {
        correction_delta: correction_delta.to_bits(),
        angle_diff: angle_diff.to_bits(),
        angles,
    };
    apply_stronghold_event(d, e, &math);
}

fn message() -> NbbInfoMessage {
    NbbInfoMessage { severity: String::new(), msg_type: String::new(), message: String::new() }
}

#[test]
fn none_result_clears_but_preserves_other_streams() {
    let mut d = NinjabrainData::default();
    d.boat_state = "VALID".into();
    d.blind.enabled = true;
    d.information_messages.push(message());
    d.valid_prediction = true;
    d.eye_count = 2;
    apply(&mut d, r#"{"resultType": "NONE"}"#);
    assert!(!d.valid_prediction);
    assert_eq!(d.eye_count, 0);
    assert_eq!(d.result_type, "NONE");
    assert_eq!(d.boat_state, "VALID");
    assert!(d.blind.enabled);
    assert_eq!(d.information_messages.len(), 1);
}

#[test]
fn triangulation_parse_full() {
    let mut d = NinjabrainData::default();
    d.boat_state = "MEASURING".into();
    apply(
        &mut d,
        r#"{
        "resultType": "TRIANGULATION",
        "playerPosition": {"xInOverworld": 100.0, "zInOverworld": -50.0, "isInNether": false, "horizontalAngle": -45.0},
        "eyeThrows": [
            {"xInOverworld": 100.0, "zInOverworld": -50.0, "angle": -42.5, "angleWithoutCorrection": -42.0, "correction": -0.5, "error": 0.01, "type": "NORMAL"},
            {"angle": -40.0, "correction": 0.0}
        ],
        "predictions": [
            {"chunkX": 10, "chunkZ": -20, "certainty": 0.95, "overworldDistance": 400.0},
            {"chunkX": 11, "chunkZ": -21, "certainty": 0.05, "overworldDistance": 420.0}
        ]
    }"#,
    );
    assert_eq!(d.result_type, "TRIANGULATION");
    assert!(d.valid_prediction);
    assert_eq!(d.eye_count, 2);
    assert_eq!(d.prediction_count, 2);
    assert_eq!(d.stronghold_x, 10 * 16 + 4);
    assert_eq!(d.stronghold_z, -20 * 16 + 4);
    assert!((f(d.certainty) - 0.95).abs() < 1e-12);
    assert!((f(d.last_angle) - -40.0).abs() < 1e-12);
    assert!((f(d.prev_angle) - -42.5).abs() < 1e-12);
    assert!(d.has_angle_change && d.has_nether_angle);
    assert!((f(d.nether_angle_diff) - 2.5).abs() < 1e-12);
    assert!((f(d.throws[1].x_in_overworld) - 100.0).abs() < 1e-12);
    assert!(d.throws[1].has_position, "hasPlayerPos makes it positioned");
    assert!((f(d.throws[1].angle_without_correction) - -40.0).abs() < 1e-12);
    let ang = &d.prediction_angles[0];
    assert!(ang.valid);
    let block_x = 164.0;
    let block_z = -316.0;
    let expect = -((block_x - 100.0_f64).atan2(block_z - -50.0)) * 180.0 / std::f64::consts::PI;
    assert!((f(ang.actual_angle) - expect).abs() < 1e-9);
    assert!((f(ang.needed_correction) - normalize(expect - -45.0)).abs() < 1e-9);
    assert_eq!(d.boat_state, "MEASURING");
}

#[test]
fn increments_151_recovery() {
    let mut d = NinjabrainData::default();
    let ev = |corr: f64| {
        format!(
            r#"{{"resultType": "TRIANGULATION", "eyeThrows": [{{"angle": 10.0, "correction": {corr}}}], "predictions": []}}"#
        )
    };
    apply(&mut d, &ev(0.0));
    assert_eq!(d.correction_increments_151, 0);
    apply(&mut d, &ev(0.01));
    assert_eq!(d.correction_increments_151, 1);
    apply(&mut d, &ev(0.02));
    assert_eq!(d.correction_increments_151, 2);
    apply(&mut d, &ev(0.01));
    assert_eq!(d.correction_increments_151, 1);
    apply(
        &mut d,
        r#"{"resultType": "TRIANGULATION",
            "eyeThrows": [{"angle": 10.0, "correction": 0.01}, {"angle": 11.0, "correction": 0.0}],
            "predictions": []}"#,
    );
    assert_eq!(d.correction_increments_151, 0);
}

#[test]
fn explicit_increments_skip_recovery() {
    let mut d = NinjabrainData::default();
    apply(
        &mut d,
        r#"{"resultType": "TRIANGULATION",
            "eyeThrows": [{"angle": 10.0, "correction": 0.02, "correctionIncrements": 3}],
            "predictions": []}"#,
    );
    assert!(d.throws[0].has_correction_increments);
    assert_eq!(d.throws[0].correction_increments, 3);
    assert_eq!(d.correction_increments_151, 0);
}

#[test]
fn boat_null_angle() {
    let mut d = NinjabrainData::default();
    apply_boat_event(&mut d, &json(r#"{"boatState": "ERROR", "boatAngle": null}"#));
    assert_eq!(d.boat_state, "ERROR");
    assert!(!d.has_boat_angle);
    apply_boat_event(&mut d, &json(r#"{"boatState": "VALID", "boatAngle": 12.5}"#));
    assert!(d.has_boat_angle && (f(d.boat_angle) - 12.5).abs() < 1e-12);
}

#[test]
fn blind_disabled_clears() {
    let mut d = NinjabrainData::default();
    apply_blind_event(
        &mut d,
        &json(
            r#"{"isBlindModeEnabled": true, "hasDivine": false,
            "blindResult": {"evaluation": "HIGHROLL_GOOD", "xInNether": 12.0, "zInNether": -34.0,
                "improveDistance": 40.0, "averageDistance": 200.0, "improveDirection": 90.0,
                "highrollProbability": 0.22, "highrollThreshold": 400.0}}"#,
        ),
    );
    assert!(d.blind.enabled && d.blind.has_result);
    assert_eq!(d.blind.evaluation, "HIGHROLL_GOOD");
    assert_eq!(f(d.blind.highroll_probability), 0.22);
    apply_blind_event(&mut d, &json(r#"{"isBlindModeEnabled": false}"#));
    assert_eq!(d.blind, NbbBlind::default());
}

#[test]
fn info_messages_capped_at_8() {
    let mut d = NinjabrainData::default();
    let msgs: Vec<String> = (0..12)
        .map(|i| format!(r#"{{"severity": "INFO", "type": "X", "message": "m{i}"}}"#))
        .collect();
    let text = format!(r#"{{"informationMessages": [{}]}}"#, msgs.join(","));
    apply_info_messages_event(&mut d, &json(&text));
    assert_eq!(d.information_messages.len(), 8);
    assert_eq!(d.information_messages[7].message, "m7");
}

#[test]
fn throws_capped_at_8() {
    let mut d = NinjabrainData::default();
    let throws: Vec<String> = (0..10).map(|i| format!(r#"{{"angle": {i}.0}}"#)).collect();
    let text = format!(
        r#"{{"resultType": "TRIANGULATION", "eyeThrows": [{}], "predictions": []}}"#,
        throws.join(",")
    );
    apply(&mut d, &text);
    assert_eq!(d.eye_count, 8);
}

#[test]
fn snapshot_roundtrip() {
    let mut d = NinjabrainData::default();
    reset_nbb_data(&mut d);
    d.eye_count = 3;
    stamp_update(&mut d, 17);
    let s = d.clone();
    assert_eq!(s.eye_count, 3);
    assert!(s.last_update.is_some());
    reset_nbb_data(&mut d);
    assert_eq!(d.eye_count, 0);
}

#[test]
fn epsilon_is_a_billionth() {
    assert_eq!(f(EPSILON_BITS), 1e-9);
    assert_eq!(f(INFINITY_BITS), f64::INFINITY);
}

#[test]
fn small_corrections_count_as_none() {
    let mut d = NinjabrainData::default();
    let ev = |corr: &str| {
        format!(
            r#"{{"resultType": "FAILED", "eyeThrows": [{{"angle": 1.0, "correction": {corr}}}]}}"#
        )
    };
    apply(&mut d, &ev("0.0000000005"));
    assert!(!d.has_correction);
    apply(&mut d, &ev("-0.01"));
    assert!(d.has_correction);
    assert_eq!(d.correction_increments_151, -1);
}

#[test]
fn lost_streams_clear_their_own_data() {
    let mut d = NinjabrainData::default();
    d.boat_state = "VALID".into();
    d.blind.enabled = true;
    d.information_messages.push(message());
    d.result_type = "FAILED".into();
    clear_boat(&mut d);
    assert_eq!(d.boat_state, "NONE");
    clear_info_messages(&mut d);
    assert!(d.information_messages.is_empty());
    clear_blind(&mut d);
    assert_eq!(d.blind, NbbBlind::default());
    assert_eq!(d.result_type, "FAILED");
    clear_stronghold(&mut d);
    assert_eq!(d.result_type, "NONE");
}

#[test]
fn values_of_json_are_read_with_defaults() {
    let j = json(r#"{"a": 1.5, "b": -7, "c": true, "d": "x", "e": [1, 2], "f": {"g": null}}"#);
    assert_eq!(f(j.double_bits("a", 0)), 1.5);
    assert_eq!(f(j.double_bits("b", 0)), -7.0);
    assert_eq!(j.double_bits("d", 9), 9);
    assert_eq!(j.integer("b", 3), -7);
    assert_eq!(j.integer("a", 3), 3);
    assert!(j.truth("c", false));
    assert!(j.truth("zzz", true));
    assert_eq!(j.text("d", "y"), "x");
    assert_eq!(j.text("a", "y"), "y");
    assert_eq!(j.array("e").unwrap().len(), 2);
    assert!(j.array("f").is_none());
    assert!(j.object("f").is_some());
    assert!(parse_json("{").is_none());
    assert!(parse_json("{\"a\": 1} x").is_none());
}

#[test]
fn numbers_are_computed_from_the_event() {
    let e = read_stronghold_event(&json(
        r#"{
            "resultType": "TRIANGULATION",
            "playerPosition": {"xInOverworld": 100.0, "zInOverworld": -50.0, "horizontalAngle": -45.0},
            "eyeThrows": [{"angle": 1.5}, {"angle": 7.0}, {"angle": 4.0}],
            "predictions": [{"chunkX": 10, "chunkZ": -20}, {"chunkX": 2147483647, "chunkZ": -2147483648}]
        }"#,
    ));
    let (last, first) = turned_angles(&e).unwrap();
    assert_eq!((f(last), f(first)), (4.0, 1.5));
    let inputs = angle_inputs(&e).unwrap();
    assert_eq!(f(inputs.player.x), 100.0);
    assert_eq!(f(inputs.player.horizontal_angle), -45.0);
    assert_eq!(inputs.targets, vec![(164, -316), (34359738356, -34359738364)]);
    let bare = read_stronghold_event(&json(r#"{"resultType": "X", "predictions": [{"chunkX": 1}]}"#));
    assert!(turned_angles(&bare).is_none());
    assert!(angle_inputs(&bare).is_none());
}
