//! What the Ninjabrain Bot reports, and how its events change it.
//!
//! A real number is held as the 64 bits of its double: zero is zero, and for
//! numbers of one sign the order of the bits is the order of the numbers.

use crate::json::Json;
use crate::text::same_text;
use vstd::prelude::*;
use vstd::string::*;

verus! {

use crate::json::{
    array_field, as_int, bool_or, double_field, double_or, field, full_object, holds, holds_array,
    holds_integer, holds_number, holds_text, int_or, lacks, law_field_is_found,
    law_integers_are_read, law_lists_are_read, law_numbers_are_read, law_texts_are_read,
    law_truths_are_read, str_or, JsonNumber,
};

pub const PREDICTION_LIMIT: usize = 5;

pub const THROW_LIMIT: usize = 8;

pub const INFO_MSG_LIMIT: usize = 8;

/// One offered stronghold position.
#[derive(Clone, Copy, Debug, PartialEq, Eq, Structural)]
pub struct NbbPrediction {
    pub chunk_x: i32,
    pub chunk_z: i32,
    pub certainty: u64,
    pub overworld_distance: u64,
}

/// One measured eye throw.
#[derive(Clone, Debug, PartialEq)]
pub struct NbbThrow {
    pub x_in_overworld: u64,
    pub z_in_overworld: u64,
    pub has_position: bool,
    pub angle: u64,
    pub angle_without_correction: u64,
    pub correction: u64,
    pub error: u64,
    pub correction_increments: i32,
    pub has_correction_increments: bool,
    pub throw_type: String,
}

/// The angle from the player to a prediction.
#[derive(Clone, Copy, Debug, PartialEq, Eq, Structural)]
pub struct NbbPredictionAngle {
    pub actual_angle: u64,
    pub needed_correction: u64,
    pub valid: bool,
}

/// One information message.
#[derive(Clone, Debug, PartialEq)]
pub struct NbbInfoMessage {
    pub severity: String,
    pub msg_type: String,
    pub message: String,
}

/// The state of blind travel.
#[derive(Clone, Debug, PartialEq)]
pub struct NbbBlind {
    pub enabled: bool,
    pub has_divine: bool,
    pub has_result: bool,
    pub evaluation: String,
    pub x_in_nether: u64,
    pub z_in_nether: u64,
    pub improve_distance: u64,
    pub average_distance: u64,
    pub improve_direction: u64,
    pub highroll_probability: u64,
    pub highroll_threshold: u64,
}

/// All that is known from the bot.
#[derive(Clone, Debug)]
pub struct NinjabrainData {
    pub stronghold_x: i32,
    pub stronghold_z: i32,
    pub distance: u64,
    pub certainty: u64,
    pub predictions: Vec<NbbPrediction>,
    pub prediction_angles: Vec<NbbPredictionAngle>,
    pub prediction_count: i32,
    pub throws: Vec<NbbThrow>,
    pub eye_count: i32,
    pub last_angle: u64,
    pub prev_angle: u64,
    pub has_angle_change: bool,
    pub last_correction: u64,
    pub last_throw_error: u64,
    pub last_angle_without_correction: u64,
    pub has_correction: bool,
    pub has_throw_error: bool,
    pub has_nether_angle: bool,
    pub nether_angle: u64,
    pub nether_angle_diff: u64,
    pub player_x: u64,
    pub player_z: u64,
    pub player_horizontal_angle: u64,
    pub player_in_nether: bool,
    pub has_player_pos: bool,
    pub information_messages: Vec<NbbInfoMessage>,
    pub blind: NbbBlind,
    /// Increments counted from the changes of the last throw's correction, for
    /// a bot that does not report them.
    pub correction_increments_151: i32,
    pub result_type: String,
    pub valid_prediction: bool,
    pub boat_state: String,
    pub boat_angle: u64,
    pub has_boat_angle: bool,
    /// When the data last changed, in milliseconds.
    pub last_update: Option<u64>,
}

// ---------------------------------------------------------------------------
// Views
// ---------------------------------------------------------------------------

#[verifier::ext_equal]
pub struct ThrowView {
    pub x_in_overworld: u64,
    pub z_in_overworld: u64,
    pub has_position: bool,
    pub angle: u64,
    pub angle_without_correction: u64,
    pub correction: u64,
    pub error: u64,
    pub correction_increments: i32,
    pub has_correction_increments: bool,
    pub throw_type: Seq<char>,
}

impl View for NbbThrow {
    type V = ThrowView;

    open spec fn view(&self) -> ThrowView {
        ThrowView {
            x_in_overworld: self.x_in_overworld,
            z_in_overworld: self.z_in_overworld,
            has_position: self.has_position,
            angle: self.angle,
            angle_without_correction: self.angle_without_correction,
            correction: self.correction,
            error: self.error,
            correction_increments: self.correction_increments,
            has_correction_increments: self.has_correction_increments,
            throw_type: self.throw_type@,
        }
    }
}

#[verifier::ext_equal]
pub struct InfoView {
    pub severity: Seq<char>,
    pub msg_type: Seq<char>,
    pub message: Seq<char>,
}

impl View for NbbInfoMessage {
    type V = InfoView;

    open spec fn view(&self) -> InfoView {
        InfoView { severity: self.severity@, msg_type: self.msg_type@, message: self.message@ }
    }
}

#[verifier::ext_equal]
pub struct BlindView {
    pub enabled: bool,
    pub has_divine: bool,
    pub has_result: bool,
    pub evaluation: Seq<char>,
    pub x_in_nether: u64,
    pub z_in_nether: u64,
    pub improve_distance: u64,
    pub average_distance: u64,
    pub improve_direction: u64,
    pub highroll_probability: u64,
    pub highroll_threshold: u64,
}

impl View for NbbBlind {
    type V = BlindView;

    open spec fn view(&self) -> BlindView {
        BlindView {
            enabled: self.enabled,
            has_divine: self.has_divine,
            has_result: self.has_result,
            evaluation: self.evaluation@,
            x_in_nether: self.x_in_nether,
            z_in_nether: self.z_in_nether,
            improve_distance: self.improve_distance,
            average_distance: self.average_distance,
            improve_direction: self.improve_direction,
            highroll_probability: self.highroll_probability,
            highroll_threshold: self.highroll_threshold,
        }
    }
}

#[verifier::ext_equal]
pub struct DataView {
    pub stronghold_x: i32,
    pub stronghold_z: i32,
    pub distance: u64,
    pub certainty: u64,
    pub predictions: Seq<NbbPrediction>,
    pub prediction_angles: Seq<NbbPredictionAngle>,
    pub prediction_count: i32,
    pub throws: Seq<ThrowView>,
    pub eye_count: i32,
    pub last_angle: u64,
    pub prev_angle: u64,
    pub has_angle_change: bool,
    pub last_correction: u64,
    pub last_throw_error: u64,
    pub last_angle_without_correction: u64,
    pub has_correction: bool,
    pub has_throw_error: bool,
    pub has_nether_angle: bool,
    pub nether_angle: u64,
    pub nether_angle_diff: u64,
    pub player_x: u64,
    pub player_z: u64,
    pub player_horizontal_angle: u64,
    pub player_in_nether: bool,
    pub has_player_pos: bool,
    pub information_messages: Seq<InfoView>,
    pub blind: BlindView,
    pub correction_increments_151: i32,
    pub result_type: Seq<char>,
    pub valid_prediction: bool,
    pub boat_state: Seq<char>,
    pub boat_angle: u64,
    pub has_boat_angle: bool,
    pub last_update: Option<u64>,
}

pub open spec fn throw_views(v: Seq<NbbThrow>) -> Seq<ThrowView> {
    v.map_values(|t: NbbThrow| t@)
}

pub open spec fn info_views(v: Seq<NbbInfoMessage>) -> Seq<InfoView> {
    v.map_values(|m: NbbInfoMessage| m@)
}

impl View for NinjabrainData {
    type V = DataView;

    open spec fn view(&self) -> DataView {
        DataView {
            stronghold_x: self.stronghold_x,
            stronghold_z: self.stronghold_z,
            distance: self.distance,
            certainty: self.certainty,
            predictions: self.predictions@,
            prediction_angles: self.prediction_angles@,
            prediction_count: self.prediction_count,
            throws: throw_views(self.throws@),
            eye_count: self.eye_count,
            last_angle: self.last_angle,
            prev_angle: self.prev_angle,
            has_angle_change: self.has_angle_change,
            last_correction: self.last_correction,
            last_throw_error: self.last_throw_error,
            last_angle_without_correction: self.last_angle_without_correction,
            has_correction: self.has_correction,
            has_throw_error: self.has_throw_error,
            has_nether_angle: self.has_nether_angle,
            nether_angle: self.nether_angle,
            nether_angle_diff: self.nether_angle_diff,
            player_x: self.player_x,
            player_z: self.player_z,
            player_horizontal_angle: self.player_horizontal_angle,
            player_in_nether: self.player_in_nether,
            has_player_pos: self.has_player_pos,
            information_messages: info_views(self.information_messages@),
            blind: self.blind@,
            correction_increments_151: self.correction_increments_151,
            result_type: self.result_type@,
            valid_prediction: self.valid_prediction,
            boat_state: self.boat_state@,
            boat_angle: self.boat_angle,
            has_boat_angle: self.has_boat_angle,
            last_update: self.last_update,
        }
    }
}

/// Blind travel is off and nothing is known.
pub open spec fn no_blind() -> BlindView {
    BlindView {
        enabled: false,
        has_divine: false,
        has_result: false,
        evaluation: Seq::empty(),
        x_in_nether: 0,
        z_in_nether: 0,
        improve_distance: 0,
        average_distance: 0,
        improve_direction: 0,
        highroll_probability: 0,
        highroll_threshold: 0,
    }
}

/// Nothing is known from the bot.
pub open spec fn no_data() -> DataView {
    DataView {
        stronghold_x: 0,
        stronghold_z: 0,
        distance: 0,
        certainty: 0,
        predictions: Seq::empty(),
        prediction_angles: Seq::empty(),
        prediction_count: 0,
        throws: Seq::empty(),
        eye_count: 0,
        last_angle: 0,
        prev_angle: 0,
        has_angle_change: false,
        last_correction: 0,
        last_throw_error: 0,
        last_angle_without_correction: 0,
        has_correction: false,
        has_throw_error: false,
        has_nether_angle: false,
        nether_angle: 0,
        nether_angle_diff: 0,
        player_x: 0,
        player_z: 0,
        player_horizontal_angle: 0,
        player_in_nether: false,
        has_player_pos: false,
        information_messages: Seq::empty(),
        blind: no_blind(),
        correction_increments_151: 0,
        result_type: "NONE"@,
        valid_prediction: false,
        boat_state: "NONE"@,
        boat_angle: 0,
        has_boat_angle: false,
        last_update: None,
    }
}

/// Only what does not come from the stronghold events is kept.
pub open spec fn without_stronghold(d: DataView) -> DataView {
    DataView {
        boat_state: d.boat_state,
        boat_angle: d.boat_angle,
        has_boat_angle: d.has_boat_angle,
        information_messages: d.information_messages,
        blind: d.blind,
        ..no_data()
    }
}

/// The counts agree with the lists, and the lists keep their limits.
pub open spec fn data_ok(d: DataView) -> bool {
    &&& d.eye_count == d.throws.len()
    &&& d.throws.len() <= THROW_LIMIT
    &&& d.prediction_count == d.predictions.len()
    &&& d.prediction_angles.len() == d.predictions.len()
    &&& d.predictions.len() <= PREDICTION_LIMIT
    &&& d.information_messages.len() <= INFO_MSG_LIMIT
}

impl Default for NbbBlind {
    fn default() -> (r: NbbBlind)
        ensures
            r@ == no_blind(),
    {
        NbbBlind {
            enabled: false,
            has_divine: false,
            has_result: false,
            evaluation: String::new(),
            x_in_nether: 0,
            z_in_nether: 0,
            improve_distance: 0,
            average_distance: 0,
            improve_direction: 0,
            highroll_probability: 0,
            highroll_threshold: 0,
        }
    }
}

impl Default for NinjabrainData {
    fn default() -> (r: NinjabrainData)
        ensures
            r@ == no_data(),
    {
        let r = NinjabrainData {
            stronghold_x: 0,
            stronghold_z: 0,
            distance: 0,
            certainty: 0,
            predictions: Vec::new(),
            prediction_angles: Vec::new(),
            prediction_count: 0,
            throws: Vec::new(),
            eye_count: 0,
            last_angle: 0,
            prev_angle: 0,
            has_angle_change: false,
            last_correction: 0,
            last_throw_error: 0,
            last_angle_without_correction: 0,
            has_correction: false,
            has_throw_error: false,
            has_nether_angle: false,
            nether_angle: 0,
            nether_angle_diff: 0,
            player_x: 0,
            player_z: 0,
            player_horizontal_angle: 0,
            player_in_nether: false,
            has_player_pos: false,
            information_messages: Vec::new(),
            blind: NbbBlind::default(),
            correction_increments_151: 0,
            result_type: "NONE".to_owned(),
            valid_prediction: false,
            boat_state: "NONE".to_owned(),
            boat_angle: 0,
            has_boat_angle: false,
            last_update: None,
        };
        assert(r@ =~= no_data());
        r
    }
}

// ---------------------------------------------------------------------------
// Sharing
// ---------------------------------------------------------------------------

/// Forgets everything.
pub fn reset_nbb_data(d: &mut NinjabrainData)
    ensures
        final(d)@ == no_data(),
{
    *d = NinjabrainData::default();
}

/// Marks the data as changed at `now_ms`.
pub fn stamp_update(d: &mut NinjabrainData, now_ms: u64)
    ensures
        final(d)@ == (DataView { last_update: Some(now_ms), ..old(d)@ }),
{
    d.last_update = Some(now_ms);
}

// ---------------------------------------------------------------------------
// A stream that is lost
// ---------------------------------------------------------------------------

/// Drops what came from stronghold events; boat, blind travel and messages
/// stay.
pub fn clear_stronghold(d: &mut NinjabrainData)
    ensures
        final(d)@ == without_stronghold(old(d)@),
{
    let mut next = NinjabrainData::default();
    core::mem::swap(&mut next.boat_state, &mut d.boat_state);
    core::mem::swap(&mut next.information_messages, &mut d.information_messages);
    core::mem::swap(&mut next.blind, &mut d.blind);
    next.boat_angle = d.boat_angle;
    next.has_boat_angle = d.has_boat_angle;
    *d = next;
    assert(d@ =~= without_stronghold(old(d)@));
}

/// Drops what came from boat events.
pub fn clear_boat(d: &mut NinjabrainData)
    ensures
        final(d)@ == (DataView {
            boat_state: "NONE"@,
            boat_angle: 0,
            has_boat_angle: false,
            ..old(d)@
        }),
{
    d.boat_state = "NONE".to_owned();
    d.boat_angle = 0;
    d.has_boat_angle = false;
}

/// Drops the information messages.
pub fn clear_info_messages(d: &mut NinjabrainData)
    ensures
        final(d)@ == (DataView { information_messages: Seq::empty(), ..old(d)@ }),
{
    d.information_messages.clear();
    assert(info_views(d.information_messages@) =~= Seq::<InfoView>::empty());
}

/// Drops what is known of blind travel.
pub fn clear_blind(d: &mut NinjabrainData)
    ensures
        final(d)@ == (DataView { blind: no_blind(), ..old(d)@ }),
{
    d.blind = NbbBlind::default();
}

// ---------------------------------------------------------------------------
// Stronghold events
// ---------------------------------------------------------------------------

/// Where the player stands and looks.
#[derive(Clone, Copy, Debug, PartialEq, Eq, Structural)]
pub struct PlayerPosition {
    pub x: u64,
    pub z: u64,
    pub in_nether: bool,
    pub horizontal_angle: u64,
}

/// A stronghold event as it was received.
pub struct StrongholdEvent {
    pub result_type: String,
    pub player: Option<PlayerPosition>,
    pub throws: Vec<NbbThrow>,
    pub predictions: Vec<NbbPrediction>,
}

#[verifier::ext_equal]
pub struct EventView {
    pub result_type: Seq<char>,
    pub player: Option<PlayerPosition>,
    pub throws: Seq<ThrowView>,
    pub predictions: Seq<NbbPrediction>,
}

impl View for StrongholdEvent {
    type V = EventView;

    open spec fn view(&self) -> EventView {
        EventView {
            result_type: self.result_type@,
            player: self.player,
            throws: throw_views(self.throws@),
            predictions: self.predictions@,
        }
    }
}

/// The lists of an event keep their limits.
pub open spec fn event_ok(e: EventView) -> bool {
    e.throws.len() <= THROW_LIMIT && e.predictions.len() <= PREDICTION_LIMIT
}

/// The player position in an event; an empty one does not count.
pub open spec fn player_of(j: Json) -> Option<PlayerPosition> {
    match full_object(j, "playerPosition"@) {
        Some(p) => Some(
            PlayerPosition {
                x: double_or(p, "xInOverworld"@, 0),
                z: double_or(p, "zInOverworld"@, 0),
                in_nether: bool_or(p, "isInNether"@, false),
                horizontal_angle: double_or(p, "horizontalAngle"@, 0),
            },
        ),
        None => None,
    }
}

/// A throw in an event. A missing position is the player's, a missing
/// uncorrected angle the angle, a missing error the correction.
pub open spec fn throw_of(j: Json, player: Option<PlayerPosition>) -> ThrowView {
    let x0: u64 = match player {
        Some(p) => p.x,
        None => 0,
    };
    let z0: u64 = match player {
        Some(p) => p.z,
        None => 0,
    };
    let angle = double_or(j, "angle"@, 0);
    let correction = double_or(j, "correction"@, 0);
    let increments: Option<i32> = match field(j, "correctionIncrements"@) {
        None => None,
        Some(Json::Null) => None,
        Some(v) => Some(
            match as_int(v) {
                Some(n) => n as i32,
                None => 0,
            },
        ),
    };
    ThrowView {
        x_in_overworld: double_or(j, "xInOverworld"@, x0),
        z_in_overworld: double_or(j, "zInOverworld"@, z0),
        has_position: field(j, "xInOverworld"@) is Some || field(j, "zInOverworld"@) is Some
            || player is Some,
        angle,
        angle_without_correction: double_or(j, "angleWithoutCorrection"@, angle),
        correction,
        error: double_or(j, "error"@, correction),
        correction_increments: match increments {
            Some(n) => n,
            None => 0,
        },
        has_correction_increments: increments is Some,
        throw_type: str_or(j, "type"@, "NORMAL"@),
    }
}

pub open spec fn prediction_of(j: Json) -> NbbPrediction {
    NbbPrediction {
        chunk_x: int_or(j, "chunkX"@, 0),
        chunk_z: int_or(j, "chunkZ"@, 0),
        certainty: double_or(j, "certainty"@, 0),
        overworld_distance: double_or(j, "overworldDistance"@, 0),
    }
}

/// At most the first `limit` elements of an array; none where there is no
/// array.
pub open spec fn first_of(a: Option<Seq<Json>>, limit: int) -> Seq<Json> {
    match a {
        Some(s) => if s.len() <= limit {
            s
        } else {
            s.take(limit)
        },
        None => Seq::empty(),
    }
}

/// A stronghold event as it stands in a JSON value.
pub open spec fn event_of(j: Json) -> EventView {
    EventView {
        result_type: str_or(j, "resultType"@, "NONE"@),
        player: player_of(j),
        throws: first_of(array_field(j, "eyeThrows"@), THROW_LIMIT as int).map_values(
            |t: Json| throw_of(t, player_of(j)),
        ),
        predictions: first_of(array_field(j, "predictions"@), PREDICTION_LIMIT as int).map_values(
            |p: Json| prediction_of(p),
        ),
    }
}

fn read_player(json: &Json) -> (r: Option<PlayerPosition>)
    ensures
        r == player_of(*json),
{
    match json.object("playerPosition") {
        Some(p) => Some(
            PlayerPosition {
                x: p.double_bits("xInOverworld", 0),
                z: p.double_bits("zInOverworld", 0),
                in_nether: p.truth("isInNether", false),
                horizontal_angle: p.double_bits("horizontalAngle", 0),
            },
        ),
        None => None,
    }
}

fn read_throw(json: &Json, player: Option<PlayerPosition>) -> (r: NbbThrow)
    ensures
        r@ == throw_of(*json, player),
{
    let x0: u64 = match player {
        Some(p) => p.x,
        None => 0,
    };
    let z0: u64 = match player {
        Some(p) => p.z,
        None => 0,
    };
    let angle: u64 = json.double_bits("angle", 0);
    let correction: u64 = json.double_bits("correction", 0);
    let increments: Option<i32> = match json.get("correctionIncrements") {
        None => None,
        Some(Json::Null) => None,
        Some(Json::Number(n)) => match n.signed {
            Some(x) => Some(x as i32),
            None => Some(0),
        },
        Some(_) => Some(0),
    };
    NbbThrow {
        x_in_overworld: json.double_bits("xInOverworld", x0),
        z_in_overworld: json.double_bits("zInOverworld", z0),
        has_position: json.get("xInOverworld").is_some() || json.get("zInOverworld").is_some()
            || player.is_some(),
        angle,
        angle_without_correction: json.double_bits("angleWithoutCorrection", angle),
        correction,
        error: json.double_bits("error", correction),
        correction_increments: match increments {
            Some(n) => n,
            None => 0,
        },
        has_correction_increments: increments.is_some(),
        throw_type: json.text("type", "NORMAL"),
    }
}

fn read_throws(json: &Json, player: Option<PlayerPosition>) -> (r: Vec<NbbThrow>)
    ensures
        throw_views(r@) == first_of(
            array_field(*json, "eyeThrows"@),
            THROW_LIMIT as int,
        ).map_values(|t: Json| throw_of(t, player)),
{
    let mut out: Vec<NbbThrow> = Vec::new();
    let ghost all = first_of(array_field(*json, "eyeThrows"@), THROW_LIMIT as int);
    if let Some(a) = json.array("eyeThrows") {
        let mut i: usize = 0;
        while i < a.len() && i < THROW_LIMIT
            invariant
                i <= all.len(),
                all == first_of(Some(a@), THROW_LIMIT as int),
                throw_views(out@) == all.take(i as int).map_values(
                    |t: Json| throw_of(t, player),
                ),
            decreases a.len() - i,
        {
            let t = read_throw(&a[i], player);
            let ghost before = out@;
            out.push(t);
            i += 1;
            assert(throw_views(out@) == throw_views(before).push(t@));
            assert(all.take(i as int) == all.take(i - 1).push(all[i - 1]));
            assert(all.take(i as int).map_values(|t: Json| throw_of(t, player)) == all.take(
                i - 1,
            ).map_values(|t: Json| throw_of(t, player)).push(t@));
        }
        assert(all.take(i as int) == all);
    }
    assert(throw_views(out@) == all.map_values(|t: Json| throw_of(t, player)));
    out
}

fn read_predictions(json: &Json) -> (r: Vec<NbbPrediction>)
    ensures
        r@ == first_of(array_field(*json, "predictions"@), PREDICTION_LIMIT as int).map_values(
            |p: Json| prediction_of(p),
        ),
{
    let mut out: Vec<NbbPrediction> = Vec::new();
    let ghost all = first_of(array_field(*json, "predictions"@), PREDICTION_LIMIT as int);
    if let Some(a) = json.array("predictions") {
        let mut i: usize = 0;
        while i < a.len() && i < PREDICTION_LIMIT
            invariant
                i <= all.len(),
                all == first_of(Some(a@), PREDICTION_LIMIT as int),
                out@ == all.take(i as int).map_values(|p: Json| prediction_of(p)),
            decreases a.len() - i,
        {
            let p = NbbPrediction {
                chunk_x: a[i].integer("chunkX", 0),
                chunk_z: a[i].integer("chunkZ", 0),
                certainty: a[i].double_bits("certainty", 0),
                overworld_distance: a[i].double_bits("overworldDistance", 0),
            };
            out.push(p);
            i += 1;
            assert(all.take(i as int) == all.take(i - 1).push(all[i - 1]));
        }
        assert(all.take(i as int) == all);
    }
    assert(out@ == all.map_values(|p: Json| prediction_of(p)));
    out
}

/// Reads a stronghold event.
pub fn read_stronghold_event(json: &Json) -> (r: StrongholdEvent)
    ensures
        r@ == event_of(*json),
        event_ok(r@),
{
    let player = read_player(json);
    let r = StrongholdEvent {
        result_type: json.text("resultType", "NONE"),
        player,
        throws: read_throws(json, player),
        predictions: read_predictions(json),
    };
    assert(r@ =~= event_of(*json));
    r
}

/// The real numbers that an event leads to: the change of the last throw's
/// correction, the turn from the first throw's angle to the last one's, and for
/// each prediction the angle to it and the turn that is needed.
pub struct StrongholdMath {
    pub correction_delta: u64,
    pub angle_diff: u64,
    pub angles: Vec<(u64, u64)>,
}

/// The last element of a list by its count.
pub open spec fn last_throw(d: DataView) -> Option<ThrowView> {
    if 0 < d.eye_count <= d.throws.len() {
        Some(d.throws[d.eye_count - 1])
    } else {
        None
    }
}

/// The corrections of the last throw, new and old, whose difference decides
/// on the counted increments; nothing where none is counted.
pub open spec fn compared_of(d: DataView, e: EventView) -> Option<(u64, u64)> {
    if e.throws.len() > 0 && !e.throws.last().has_correction_increments && d.eye_count
        == e.throws.len() && last_throw(d) is Some {
        Some((e.throws.last().correction, last_throw(d)->0.correction))
    } else {
        None
    }
}

/// The corrections whose difference [`StrongholdMath`] is to hold.
pub fn compared_corrections(d: &NinjabrainData, e: &StrongholdEvent) -> (r: Option<(u64, u64)>)
    ensures
        r == compared_of(d@, e@),
{
    let n: usize = e.throws.len();
    if n == 0 || e.throws[n - 1].has_correction_increments {
        assert(n == 0 || e@.throws.last() == e.throws@[n - 1]@);
        return None;
    }
    assert(e@.throws.last() == e.throws@[n - 1]@);
    if d.eye_count <= 0 || d.eye_count as usize != n || n > d.throws.len() {
        return None;
    }
    assert(d@.throws[n - 1] == d.throws@[n - 1]@);
    Some((e.throws[n - 1].correction, d.throws[n - 1].correction))
}

/// The angles of the last and of the first throw, whose difference
/// [`StrongholdMath`] is to hold; nothing where there is no throw.
pub open spec fn turned_of(e: EventView) -> Option<(u64, u64)> {
    if e.throws.len() > 0 {
        Some((e.throws.last().angle, e.throws.first().angle))
    } else {
        None
    }
}

/// The angles whose difference [`StrongholdMath`] is to hold.
pub fn turned_angles(e: &StrongholdEvent) -> (r: Option<(u64, u64)>)
    ensures
        r == turned_of(e@),
        r is None <==> e@.throws.len() == 0,
{
    let n: usize = e.throws.len();
    if n == 0 {
        return None;
    }
    assert(e@.throws.last() == e.throws@[n - 1]@);
    assert(e@.throws.first() == e.throws@[0]@);
    Some((e.throws[n - 1].angle, e.throws[0].angle))
}

/// What enters the angles of the predictions: where the player stands and
/// looks, and for each prediction the block that the angle points to.
pub struct AngleInputs {
    pub player: PlayerPosition,
    pub targets: Vec<(i64, i64)>,
}

/// The block that a prediction's angle points to.
pub open spec fn target_of(p: NbbPrediction) -> (i64, i64) {
    ((p.chunk_x * 16 + 4) as i64, (p.chunk_z * 16 + 4) as i64)
}

/// What the angles of [`StrongholdMath`] are to be computed from. Without the
/// player's position there are none.
pub fn angle_inputs(e: &StrongholdEvent) -> (r: Option<AngleInputs>)
    ensures
        r is Some <==> e@.player is Some,
        r matches Some(a) ==> a.player == e@.player->0 && a.targets@ == e@.predictions.map_values(
            |p: NbbPrediction| target_of(p),
        ),
{
    let player = match e.player {
        Some(p) => p,
        None => {
            return None;
        },
    };
    let ghost all = e@.predictions.map_values(|p: NbbPrediction| target_of(p));
    let mut targets: Vec<(i64, i64)> = Vec::new();
    let mut i: usize = 0;
    while i < e.predictions.len()
        invariant
            i <= e.predictions@.len(),
            all == e.predictions@.map_values(|p: NbbPrediction| target_of(p)),
            targets@ == all.take(i as int),
        decreases e.predictions.len() - i,
    {
        let p = e.predictions[i];
        targets.push((p.chunk_x as i64 * 16 + 4, p.chunk_z as i64 * 16 + 4));
        i += 1;
        assert(targets@ =~= all.take(i as int));
    }
    assert(all.take(i as int) =~= all);
    Some(AngleInputs { player, targets })
}

/// The bits of the double nearest to 1e-9.
pub const EPSILON_BITS: u64 = 0x3e11_2e0b_e826_d695;

/// The bits of infinity.
pub const INFINITY_BITS: u64 = 0x7ff0_0000_0000_0000;

/// The sign bit.
pub const SIGN_BIT: u64 = 0x8000_0000_0000_0000;

/// The double is above 1e-9.
pub open spec fn above_epsilon(bits: u64) -> bool {
    EPSILON_BITS < bits <= INFINITY_BITS
}

/// The double is below -1e-9.
pub open spec fn below_epsilon(bits: u64) -> bool {
    SIGN_BIT + EPSILON_BITS < bits <= SIGN_BIT + INFINITY_BITS
}

/// The double is farther from zero than 1e-9.
pub open spec fn beyond_epsilon(bits: u64) -> bool {
    above_epsilon(bits) || below_epsilon(bits)
}

pub(crate) fn is_above(bits: u64) -> (r: bool)
    ensures
        r == above_epsilon(bits),
{
    EPSILON_BITS < bits && bits <= INFINITY_BITS
}

pub(crate) fn is_below(bits: u64) -> (r: bool)
    ensures
        r == below_epsilon(bits),
{
    bits >= SIGN_BIT && EPSILON_BITS < bits - SIGN_BIT && bits - SIGN_BIT <= INFINITY_BITS
}

/// The counted increments after an event: a new throw starts at none, else the
/// count follows the sign of the change of the last throw's correction. Where
/// the bot reports the increments, nothing is counted.
pub open spec fn increments_after(d: DataView, e: EventView, delta: u64) -> i32 {
    if e.throws.len() == 0 || e.throws.last().has_correction_increments {
        0
    } else if d.eye_count != e.throws.len() {
        0
    } else if compared_of(d, e) is Some && above_epsilon(delta) {
        d.correction_increments_151.wrapping_add(1)
    } else if compared_of(d, e) is Some && below_epsilon(delta) {
        d.correction_increments_151.wrapping_sub(1)
    } else {
        d.correction_increments_151
    }
}

/// The block coordinate of a chunk's stronghold.
pub open spec fn block_of(chunk: i32) -> i32 {
    chunk.wrapping_mul(16).wrapping_add(4)
}

/// The angle of prediction `i`; valid only where the player's position is
/// known.
pub open spec fn angle_of(e: EventView, angles: Seq<(u64, u64)>, i: int) -> NbbPredictionAngle {
    if e.player is Some {
        NbbPredictionAngle {
            actual_angle: angles[i].0,
            needed_correction: angles[i].1,
            valid: true,
        }
    } else {
        NbbPredictionAngle { actual_angle: 0, needed_correction: 0, valid: false }
    }
}

/// The data after a stronghold event. The result type "NONE" drops all that
/// came from such events; else the event replaces it.
pub open spec fn after_stronghold(
    d: DataView,
    e: EventView,
    delta: u64,
    angle_diff: u64,
    angles: Seq<(u64, u64)>,
) -> DataView {
    if e.result_type == "NONE"@ {
        without_stronghold(d)
    } else {
        let n = e.throws.len();
        let k = e.predictions.len();
        let last = e.throws.last();
        DataView {
            result_type: e.result_type,
            player_x: match e.player {
                Some(p) => p.x,
                None => 0,
            },
            player_z: match e.player {
                Some(p) => p.z,
                None => 0,
            },
            player_in_nether: match e.player {
                Some(p) => p.in_nether,
                None => false,
            },
            player_horizontal_angle: match e.player {
                Some(p) => p.horizontal_angle,
                None => 0,
            },
            has_player_pos: e.player is Some,
            throws: e.throws,
            eye_count: n as i32,
            correction_increments_151: increments_after(d, e, delta),
            last_angle: if n > 0 {
                last.angle
            } else {
                0
            },
            last_angle_without_correction: if n > 0 {
                last.angle_without_correction
            } else {
                0
            },
            last_correction: if n > 0 {
                last.correction
            } else {
                0
            },
            last_throw_error: if n > 0 {
                last.error
            } else {
                0
            },
            has_correction: n > 0 && beyond_epsilon(last.correction),
            has_throw_error: n > 0 && beyond_epsilon(last.error),
            prev_angle: if n > 1 {
                e.throws[n - 2].angle
            } else {
                0
            },
            has_angle_change: n > 1,
            has_nether_angle: n > 1,
            nether_angle: if n > 1 {
                last.angle
            } else {
                0
            },
            nether_angle_diff: if n > 1 {
                angle_diff
            } else {
                0
            },
            predictions: e.predictions,
            prediction_angles: Seq::new(k, |i: int| angle_of(e, angles, i)),
            prediction_count: k as i32,
            stronghold_x: if k > 0 {
                block_of(e.predictions[0].chunk_x)
            } else {
                0
            },
            stronghold_z: if k > 0 {
                block_of(e.predictions[0].chunk_z)
            } else {
                0
            },
            distance: if k > 0 {
                e.predictions[0].overworld_distance
            } else {
                0
            },
            certainty: if k > 0 {
                e.predictions[0].certainty
            } else {
                0
            },
            valid_prediction: k > 0,
            ..without_stronghold(d)
        }
    }
}

fn prediction_angles(e: &StrongholdEvent, math: &StrongholdMath) -> (r: Vec<NbbPredictionAngle>)
    requires
        e.player is Some ==> math.angles@.len() == e.predictions@.len(),
    ensures
        r@ == Seq::new(e.predictions@.len(), |i: int| angle_of(e@, math.angles@, i)),
{
    let mut out: Vec<NbbPredictionAngle> = Vec::new();
    let mut i: usize = 0;
    while i < e.predictions.len()
        invariant
            i <= e.predictions@.len(),
            e.player is Some ==> math.angles@.len() == e.predictions@.len(),
            out@ == Seq::new(i as nat, |k: int| angle_of(e@, math.angles@, k)),
        decreases e.predictions.len() - i,
    {
        let a = if e.player.is_some() {
            NbbPredictionAngle {
                actual_angle: math.angles[i].0,
                needed_correction: math.angles[i].1,
                valid: true,
            }
        } else {
            NbbPredictionAngle { actual_angle: 0, needed_correction: 0, valid: false }
        };
        out.push(a);
        i += 1;
        assert(out@ == Seq::new(i as nat, |k: int| angle_of(e@, math.angles@, k)));
    }
    out
}

/// Takes a stronghold event over. `math` holds the real numbers that belong to
/// the event and to the data before it.
pub fn apply_stronghold_event(d: &mut NinjabrainData, e: StrongholdEvent, math: &StrongholdMath)
    requires
        event_ok(e@),
        e.player is Some ==> math.angles@.len() == e.predictions@.len(),
    ensures
        final(d)@ == after_stronghold(
            old(d)@,
            e@,
            math.correction_delta,
            math.angle_diff,
            math.angles@,
        ),
{
    let compared = compared_corrections(d, &e);
    let before_eyes: i32 = d.eye_count;
    let before_increments: i32 = d.correction_increments_151;
    let ghost before = d@;
    let ghost ev = e@;
    clear_stronghold(d);
    if same_text(e.result_type.as_str(), "NONE") {
        return;
    }
    let angles = prediction_angles(&e, math);
    match e.player {
        Some(p) => {
            d.player_x = p.x;
            d.player_z = p.z;
            d.player_in_nether = p.in_nether;
            d.player_horizontal_angle = p.horizontal_angle;
            d.has_player_pos = true;
        },
        None => {},
    }
    let n: usize = e.throws.len();
    d.eye_count = n as i32;
    if n > 0 {
        let last = &e.throws[n - 1];
        assert(ev.throws.last() == last@);
        if !last.has_correction_increments && n as i32 == before_eyes {
            d.correction_increments_151 = before_increments;
            if compared.is_some() {
                if is_above(math.correction_delta) {
                    d.correction_increments_151 = before_increments.wrapping_add(1);
                } else if is_below(math.correction_delta) {
                    d.correction_increments_151 = before_increments.wrapping_sub(1);
                }
            }
        }
        d.last_angle = last.angle;
        d.last_angle_without_correction = last.angle_without_correction;
        d.last_correction = last.correction;
        d.last_throw_error = last.error;
        d.has_correction = is_above(last.correction) || is_below(last.correction);
        d.has_throw_error = is_above(last.error) || is_below(last.error);
        if n > 1 {
            assert(ev.throws[n - 2] == e.throws@[n - 2]@);
            d.prev_angle = e.throws[n - 2].angle;
            d.has_angle_change = true;
            d.has_nether_angle = true;
            d.nether_angle = last.angle;
            d.nether_angle_diff = math.angle_diff;
        }
    }
    let k: usize = e.predictions.len();
    d.prediction_count = k as i32;
    if k > 0 {
        let first = e.predictions[0];
        d.stronghold_x = first.chunk_x.wrapping_mul(16).wrapping_add(4);
        d.stronghold_z = first.chunk_z.wrapping_mul(16).wrapping_add(4);
        d.distance = first.overworld_distance;
        d.certainty = first.certainty;
        d.valid_prediction = true;
    }
    d.result_type = e.result_type;
    d.throws = e.throws;
    d.predictions = e.predictions;
    d.prediction_angles = angles;
    assert(d@ =~= after_stronghold(
        before,
        ev,
        math.correction_delta,
        math.angle_diff,
        math.angles@,
    ));
}

// ---------------------------------------------------------------------------
// The other events
// ---------------------------------------------------------------------------

/// The data after a boat event; an angle that is missing or no number is none.
pub open spec fn after_boat(d: DataView, j: Json) -> DataView {
    DataView {
        boat_state: str_or(j, "boatState"@, "NONE"@),
        boat_angle: double_or(j, "boatAngle"@, 0),
        has_boat_angle: double_field(j, "boatAngle"@) is Some,
        ..d
    }
}

pub fn apply_boat_event(d: &mut NinjabrainData, json: &Json)
    ensures
        final(d)@ == after_boat(old(d)@, *json),
{
    d.boat_state = json.text("boatState", "NONE");
    match json.get("boatAngle") {
        Some(Json::Number(n)) => {
            d.boat_angle = n.bits;
            d.has_boat_angle = true;
        },
        _ => {
            d.boat_angle = 0;
            d.has_boat_angle = false;
        },
    }
}

pub open spec fn info_of(j: Json) -> InfoView {
    InfoView {
        severity: str_or(j, "severity"@, "INFO"@),
        msg_type: str_or(j, "type"@, ""@),
        message: str_or(j, "message"@, ""@),
    }
}

/// The data after an information event: its first messages replace the old.
pub open spec fn after_info(d: DataView, j: Json) -> DataView {
    DataView {
        information_messages: first_of(
            array_field(j, "informationMessages"@),
            INFO_MSG_LIMIT as int,
        ).map_values(|m: Json| info_of(m)),
        ..d
    }
}

pub fn apply_info_messages_event(d: &mut NinjabrainData, json: &Json)
    ensures
        final(d)@ == after_info(old(d)@, *json),
{
    let mut out: Vec<NbbInfoMessage> = Vec::new();
    let ghost all = first_of(array_field(*json, "informationMessages"@), INFO_MSG_LIMIT as int);
    if let Some(a) = json.array("informationMessages") {
        let mut i: usize = 0;
        while i < a.len() && i < INFO_MSG_LIMIT
            invariant
                i <= all.len(),
                all == first_of(Some(a@), INFO_MSG_LIMIT as int),
                info_views(out@) == all.take(i as int).map_values(|m: Json| info_of(m)),
            decreases a.len() - i,
        {
            let m = NbbInfoMessage {
                severity: a[i].text("severity", "INFO"),
                msg_type: a[i].text("type", ""),
                message: a[i].text("message", ""),
            };
            let ghost before = out@;
            out.push(m);
            i += 1;
            assert(info_views(out@) == info_views(before).push(m@));
            assert(all.take(i as int) == all.take(i - 1).push(all[i - 1]));
            assert(all.take(i as int).map_values(|m: Json| info_of(m)) == all.take(
                i - 1,
            ).map_values(|m: Json| info_of(m)).push(m@));
        }
        assert(all.take(i as int) == all);
    }
    assert(info_views(out@) == all.map_values(|m: Json| info_of(m)));
    d.information_messages = out;
}

/// Blind travel as a blind event tells it; all is dropped where it is off.
pub open spec fn blind_of(j: Json) -> BlindView {
    if !bool_or(j, "isBlindModeEnabled"@, false) {
        no_blind()
    } else {
        let has_divine = bool_or(j, "hasDivine"@, false);
        match full_object(j, "blindResult"@) {
            Some(b) => BlindView {
                enabled: true,
                has_divine,
                has_result: true,
                evaluation: str_or(b, "evaluation"@, ""@),
                x_in_nether: double_or(b, "xInNether"@, 0),
                z_in_nether: double_or(b, "zInNether"@, 0),
                improve_distance: double_or(b, "improveDistance"@, 0),
                average_distance: double_or(b, "averageDistance"@, 0),
                improve_direction: double_or(b, "improveDirection"@, 0),
                highroll_probability: double_or(b, "highrollProbability"@, 0),
                highroll_threshold: double_or(b, "highrollThreshold"@, 0),
            },
            None => BlindView { enabled: true, has_divine, ..no_blind() },
        }
    }
}

pub fn apply_blind_event(d: &mut NinjabrainData, json: &Json)
    ensures
        final(d)@ == (DataView { blind: blind_of(*json), ..old(d)@ }),
{
    let mut blind = NbbBlind::default();
    if json.truth("isBlindModeEnabled", false) {
        blind.enabled = true;
        blind.has_divine = json.truth("hasDivine", false);
        if let Some(b) = json.object("blindResult") {
            blind.has_result = true;
            blind.evaluation = b.text("evaluation", "");
            blind.x_in_nether = b.double_bits("xInNether", 0);
            blind.z_in_nether = b.double_bits("zInNether", 0);
            blind.improve_distance = b.double_bits("improveDistance", 0);
            blind.average_distance = b.double_bits("averageDistance", 0);
            blind.improve_direction = b.double_bits("improveDirection", 0);
            blind.highroll_probability = b.double_bits("highrollProbability", 0);
            blind.highroll_threshold = b.double_bits("highrollThreshold", 0);
        }
    }
    assert(blind@ =~= blind_of(*json));
    d.blind = blind;
}

// ---------------------------------------------------------------------------
// Laws
// ---------------------------------------------------------------------------

/// Every event, and every loss of a stream, keeps the counts in step with the
/// lists and the lists within their limits: eight throws, five predictions,
/// eight messages.
pub proof fn law_limits_are_kept(
    d: DataView,
    j: Json,
    delta: u64,
    angle_diff: u64,
    angles: Seq<(u64, u64)>,
)
    requires
        data_ok(d),
    ensures
        data_ok(no_data()),
        data_ok(after_stronghold(d, event_of(j), delta, angle_diff, angles)),
        data_ok(after_boat(d, j)),
        data_ok(after_info(d, j)),
        data_ok(DataView { blind: blind_of(j), ..d }),
        data_ok(without_stronghold(d)),
{
}

/// A stronghold event leaves alone what comes from the other streams: the boat,
/// blind travel and the information messages.
pub proof fn law_stronghold_keeps_other_streams(
    d: DataView,
    e: EventView,
    delta: u64,
    angle_diff: u64,
    angles: Seq<(u64, u64)>,
)
    ensures
        ({
            let n = after_stronghold(d, e, delta, angle_diff, angles);
            &&& n.boat_state == d.boat_state
            &&& n.boat_angle == d.boat_angle
            &&& n.has_boat_angle == d.has_boat_angle
            &&& n.blind == d.blind
            &&& n.information_messages == d.information_messages
        }),
{
}

/// The other events leave alone what comes from stronghold events, and each
/// other.
pub proof fn law_other_events_are_separate(d: DataView, j: Json)
    ensures
        after_boat(d, j) == (DataView {
            boat_state: after_boat(d, j).boat_state,
            boat_angle: after_boat(d, j).boat_angle,
            has_boat_angle: after_boat(d, j).has_boat_angle,
            ..d
        }),
        after_info(d, j) == (DataView {
            information_messages: after_info(d, j).information_messages,
            ..d
        }),
        without_stronghold(after_boat(d, j)) == after_boat(without_stronghold(d), j),
        without_stronghold(after_info(d, j)) == after_info(without_stronghold(d), j),
{
}

/// An event whose result type is "NONE" has the effect of losing the stream,
/// and doing it twice is doing it once.
pub proof fn law_none_clears(
    d: DataView,
    e: EventView,
    delta: u64,
    angle_diff: u64,
    angles: Seq<(u64, u64)>,
)
    requires
        e.result_type == "NONE"@,
    ensures
        after_stronghold(d, e, delta, angle_diff, angles) == without_stronghold(d),
        without_stronghold(without_stronghold(d)) == without_stronghold(d),
        !after_stronghold(d, e, delta, angle_diff, angles).valid_prediction,
{
}

/// The counted increments move by at most one per event, and start again when
/// the number of throws changes.
pub proof fn law_increments_step(d: DataView, e: EventView, delta: u64)
    requires
        i32::MIN < d.correction_increments_151 < i32::MAX,
    ensures
        d.eye_count != e.throws.len() ==> increments_after(d, e, delta) == 0,
        e.throws.len() > 0 && e.throws.last().has_correction_increments ==> increments_after(
            d,
            e,
            delta,
        ) == 0,
        increments_after(d, e, delta) == 0 || (d.correction_increments_151 - 1
            <= increments_after(d, e, delta) <= d.correction_increments_151 + 1),
{
}

/// A turned-off blind mode forgets its last result, whatever the event holds.
pub proof fn law_blind_off_clears(j: Json)
    requires
        !bool_or(j, "isBlindModeEnabled"@, false),
    ensures
        blind_of(j) == no_blind(),
{
}

// ---------------------------------------------------------------------------
// Reading gives back what was written
// ---------------------------------------------------------------------------

/// `j` is the prediction `p` as the bot writes it.
pub open spec fn writes_prediction(j: Json, p: NbbPrediction) -> bool {
    &&& holds_integer(j, "chunkX"@, p.chunk_x as i64)
    &&& holds_integer(j, "chunkZ"@, p.chunk_z as i64)
    &&& holds_number(j, "certainty"@, p.certainty)
    &&& holds_number(j, "overworldDistance"@, p.overworld_distance)
}

/// `j` is the player's position `p` as the bot writes it.
pub open spec fn writes_player(j: Json, p: PlayerPosition) -> bool {
    &&& holds_number(j, "xInOverworld"@, p.x)
    &&& holds_number(j, "zInOverworld"@, p.z)
    &&& holds(j, "isInNether"@, Json::Bool(p.in_nether))
    &&& holds_number(j, "horizontalAngle"@, p.horizontal_angle)
}

/// `j` is the throw `t` as the bot writes it, with all of its fields; only the
/// increments may be left out, or null, where they are not counted.
pub open spec fn writes_throw(j: Json, t: ThrowView) -> bool {
    &&& holds_number(j, "xInOverworld"@, t.x_in_overworld)
    &&& holds_number(j, "zInOverworld"@, t.z_in_overworld)
    &&& t.has_position
    &&& holds_number(j, "angle"@, t.angle)
    &&& holds_number(j, "angleWithoutCorrection"@, t.angle_without_correction)
    &&& holds_number(j, "correction"@, t.correction)
    &&& holds_number(j, "error"@, t.error)
    &&& if t.has_correction_increments {
        holds_integer(j, "correctionIncrements"@, t.correction_increments as i64)
    } else {
        t.correction_increments == 0 && (lacks(j, "correctionIncrements"@) || holds(
            j,
            "correctionIncrements"@,
            Json::Null,
        ))
    }
    &&& holds_text(j, "type"@, t.throw_type)
}

/// A list of predictions as the bot writes it.
pub open spec fn writes_predictions(a: Seq<Json>, v: Seq<NbbPrediction>) -> bool {
    a.len() == v.len() && forall|i: int|
        0 <= i < v.len() ==> #[trigger] writes_prediction(a[i], v[i])
}

/// A list of throws as the bot writes it.
pub open spec fn writes_throws(a: Seq<Json>, v: Seq<ThrowView>) -> bool {
    a.len() == v.len() && forall|i: int| 0 <= i < v.len() ==> #[trigger] writes_throw(a[i], v[i])
}

/// `j` is the event `e` as the bot writes it.
pub open spec fn writes_event(j: Json, e: EventView) -> bool {
    &&& holds_text(j, "resultType"@, e.result_type)
    &&& match e.player {
        Some(p) => exists|q: Json| #[trigger]
            holds(j, "playerPosition"@, q) && writes_player(q, p),
        None => lacks(j, "playerPosition"@) || holds(j, "playerPosition"@, Json::Null),
    }
    &&& exists|a: Seq<Json>| #[trigger] holds_array(j, "eyeThrows"@, a) && writes_throws(a, e.throws)
    &&& exists|a: Seq<Json>| #[trigger]
        holds_array(j, "predictions"@, a) && writes_predictions(a, e.predictions)
}

/// A prediction that was written is read as it was; a field that is missing
/// reads as zero.
pub proof fn law_prediction_round_trip(j: Json, p: NbbPrediction)
    ensures
        writes_prediction(j, p) ==> prediction_of(j) == p,
        lacks(j, "chunkX"@) ==> prediction_of(j).chunk_x == 0,
        lacks(j, "chunkZ"@) ==> prediction_of(j).chunk_z == 0,
        lacks(j, "certainty"@) ==> prediction_of(j).certainty == 0,
        lacks(j, "overworldDistance"@) ==> prediction_of(j).overworld_distance == 0,
        holds_number(j, "certainty"@, p.certainty) ==> prediction_of(j).certainty == p.certainty,
        holds_number(j, "overworldDistance"@, p.overworld_distance) ==> prediction_of(
            j,
        ).overworld_distance == p.overworld_distance,
{
    law_integers_are_read(j, "chunkX"@, p.chunk_x, j, 0);
    law_integers_are_read(j, "chunkZ"@, p.chunk_z, j, 0);
    law_numbers_are_read(j, "certainty"@, p.certainty, j, 0);
    law_numbers_are_read(j, "overworldDistance"@, p.overworld_distance, j, 0);
}

/// A throw that was written is read as it was, wherever the player stands.
pub proof fn law_throw_round_trip(j: Json, t: ThrowView, player: Option<PlayerPosition>)
    requires
        writes_throw(j, t),
    ensures
        throw_of(j, player) == t,
{
    let x0: u64 = match player {
        Some(p) => p.x,
        None => 0,
    };
    let z0: u64 = match player {
        Some(p) => p.z,
        None => 0,
    };
    law_numbers_are_read(j, "xInOverworld"@, t.x_in_overworld, j, x0);
    law_numbers_are_read(j, "zInOverworld"@, t.z_in_overworld, j, z0);
    law_numbers_are_read(j, "angle"@, t.angle, j, 0);
    law_numbers_are_read(j, "angleWithoutCorrection"@, t.angle_without_correction, j, t.angle);
    law_numbers_are_read(j, "correction"@, t.correction, j, 0);
    law_numbers_are_read(j, "error"@, t.error, j, t.correction);
    law_texts_are_read(j, "type"@, t.throw_type, j, "NORMAL"@);
    law_field_is_found(j, "correctionIncrements"@, Json::Null);
    if t.has_correction_increments {
        let n = choose|n: JsonNumber| #[trigger]
            holds(j, "correctionIncrements"@, Json::Number(n)) && n.signed == Some(
                t.correction_increments as i64,
            );
        law_field_is_found(j, "correctionIncrements"@, Json::Number(n));
    }
    assert(throw_of(j, player) =~= t);
}

/// What a throw leaves out: its position is the player's where that is known, the
/// uncorrected angle is the angle, the error is the correction.
pub proof fn law_throw_defaults(j: Json, player: PlayerPosition, angle: u64, correction: u64)
    requires
        j is Object,
        lacks(j, "xInOverworld"@),
        lacks(j, "zInOverworld"@),
        lacks(j, "angleWithoutCorrection"@),
        lacks(j, "error"@),
        lacks(j, "type"@),
        holds_number(j, "angle"@, angle),
        holds_number(j, "correction"@, correction),
    ensures
        ({
            let t = throw_of(j, Some(player));
            &&& t.x_in_overworld == player.x && t.z_in_overworld == player.z && t.has_position
            &&& t.angle == angle && t.angle_without_correction == angle
            &&& t.correction == correction && t.error == correction
            &&& t.throw_type == "NORMAL"@
        }),
        ({
            let t = throw_of(j, None);
            t.x_in_overworld == 0 && t.z_in_overworld == 0 && !t.has_position
        }),
{
    law_numbers_are_read(j, "angle"@, angle, j, 0);
    law_numbers_are_read(j, "correction"@, correction, j, 0);
    law_field_is_found(j, "xInOverworld"@, j);
    law_field_is_found(j, "zInOverworld"@, j);
    law_field_is_found(j, "angleWithoutCorrection"@, j);
    law_field_is_found(j, "error"@, j);
    law_field_is_found(j, "type"@, j);
}

/// An event that was written, with at most eight throws and five predictions, is
/// read as it was.
pub proof fn law_event_round_trip(j: Json, e: EventView)
    requires
        writes_event(j, e),
        e.throws.len() <= 8,
        e.predictions.len() <= 5,
    ensures
        event_of(j) == e,
{
    law_texts_are_read(j, "resultType"@, e.result_type, j, "NONE"@);
    match e.player {
        Some(p) => {
            let q = choose|q: Json| #[trigger]
                holds(j, "playerPosition"@, q) && writes_player(q, p);
            law_lists_are_read(j, "playerPosition"@, Seq::empty(), q);
            law_numbers_are_read(q, "xInOverworld"@, p.x, q, 0);
            law_numbers_are_read(q, "zInOverworld"@, p.z, q, 0);
            law_numbers_are_read(q, "horizontalAngle"@, p.horizontal_angle, q, 0);
            law_truths_are_read(q, "isInNether"@, p.in_nether, q, false);
        },
        None => {
            law_lists_are_read(j, "playerPosition"@, Seq::empty(), Json::Null);
        },
    }
    assert(player_of(j) == e.player);
    let a = choose|a: Seq<Json>| #[trigger]
        holds_array(j, "eyeThrows"@, a) && writes_throws(a, e.throws);
    let b = choose|b: Seq<Json>| #[trigger]
        holds_array(j, "predictions"@, b) && writes_predictions(b, e.predictions);
    law_lists_are_read(j, "eyeThrows"@, a, j);
    law_lists_are_read(j, "predictions"@, b, j);
    let got = event_of(j);
    assert forall|i: int| 0 <= i < e.throws.len() implies #[trigger] got.throws[i]
        == e.throws[i] by {
        assert(writes_throw(a[i], e.throws[i]));
        law_throw_round_trip(a[i], e.throws[i], e.player);
    }
    assert forall|i: int| 0 <= i < e.predictions.len() implies #[trigger] got.predictions[i]
        == e.predictions[i] by {
        assert(writes_prediction(b[i], e.predictions[i]));
        law_prediction_round_trip(b[i], e.predictions[i]);
    }
    assert(got.throws =~= e.throws);
    assert(got.predictions =~= e.predictions);
    assert(got =~= e);
}

/// Of longer lists the first eight throws and the first five predictions are
/// read; without lists there are none, and without a result type it is "NONE".
pub proof fn law_event_lists_are_cut(j: Json, a: Seq<Json>, p: NbbPrediction, t: ThrowView, i: int)
    ensures
        holds_array(j, "predictions"@, a) && a.len() >= 5 ==> event_of(j).predictions.len() == 5,
        holds_array(j, "eyeThrows"@, a) && a.len() >= 8 ==> event_of(j).throws.len() == 8,
        holds_array(j, "predictions"@, a) && 0 <= i < 5 && i < a.len() && writes_prediction(
            a[i],
            p,
        ) ==> event_of(j).predictions[i] == p,
        holds_array(j, "eyeThrows"@, a) && 0 <= i < 8 && i < a.len() && writes_throw(a[i], t)
            ==> event_of(j).throws[i] == t,
        lacks(j, "predictions"@) ==> event_of(j).predictions.len() == 0,
        lacks(j, "eyeThrows"@) ==> event_of(j).throws.len() == 0,
        lacks(j, "resultType"@) ==> event_of(j).result_type == "NONE"@,
{
    law_lists_are_read(j, "predictions"@, a, j);
    law_lists_are_read(j, "eyeThrows"@, a, j);
    law_texts_are_read(j, "resultType"@, Seq::empty(), j, "NONE"@);
    if holds_array(j, "predictions"@, a) && 0 <= i < 5 && i < a.len() {
        law_prediction_round_trip(a[i], p);
    }
    if holds_array(j, "eyeThrows"@, a) && 0 <= i < 8 && i < a.len() && writes_throw(a[i], t) {
        law_throw_round_trip(a[i], t, player_of(j));
    }
}

/// What an event tells is what the data then holds: its lists, the last throw
/// and the one before it, the player, and the best prediction, whose stronghold
/// lies at the block (4, 4) of its chunk.
pub proof fn law_event_is_kept(
    d: DataView,
    e: EventView,
    delta: u64,
    angle_diff: u64,
    angles: Seq<(u64, u64)>,
)
    requires
        event_ok(e),
        e.result_type != "NONE"@,
    ensures
        ({
            let n = after_stronghold(d, e, delta, angle_diff, angles);
            &&& n.result_type == e.result_type
            &&& n.throws == e.throws && n.eye_count == e.throws.len()
            &&& n.predictions == e.predictions && n.prediction_count == e.predictions.len()
            &&& n.valid_prediction == (e.predictions.len() > 0)
            &&& n.has_player_pos == (e.player is Some)
            &&& e.player matches Some(p) ==> n.player_x == p.x && n.player_z == p.z
                && n.player_in_nether == p.in_nether && n.player_horizontal_angle
                == p.horizontal_angle
        }),
        ({
            let n = after_stronghold(d, e, delta, angle_diff, angles);
            let k = e.throws.len() as int;
            &&& k > 0 ==> n.last_angle == e.throws[k - 1].angle && n.last_correction
                == e.throws[k - 1].correction && n.last_throw_error == e.throws[k - 1].error
                && n.last_angle_without_correction == e.throws[k - 1].angle_without_correction
            &&& k > 1 ==> n.prev_angle == e.throws[k - 2].angle && n.nether_angle_diff
                == angle_diff && n.nether_angle == e.throws[k - 1].angle
            &&& n.has_angle_change == (k > 1) && n.has_nether_angle == (k > 1)
        }),
        ({
            let n = after_stronghold(d, e, delta, angle_diff, angles);
            &&& e.predictions.len() > 0 ==> n.certainty == e.predictions[0].certainty && n.distance
                == e.predictions[0].overworld_distance
            &&& e.predictions.len() > 0 && -100_000_000 < e.predictions[0].chunk_x < 100_000_000
                ==> n.stronghold_x == e.predictions[0].chunk_x * 16 + 4
            &&& e.predictions.len() > 0 && -100_000_000 < e.predictions[0].chunk_z < 100_000_000
                ==> n.stronghold_z == e.predictions[0].chunk_z * 16 + 4
            &&& n.prediction_angles.len() == e.predictions.len()
            &&& forall|i: int|
                0 <= i < e.predictions.len() ==> {
                    let a = #[trigger] n.prediction_angles[i];
                    &&& a.valid == (e.player is Some)
                    &&& a.valid ==> a.actual_angle == angles[i].0 && a.needed_correction
                        == angles[i].1
                }
        }),
{
}

/// Between two events with the same number of throws, whose last throw has no
/// reported increments, the count goes up by one where the correction grew by
/// more than 1e-9, down by one where it shrank by more, and else stays.
pub proof fn law_increments_follow_corrections(d: DataView, e: EventView, delta: u64)
    requires
        data_ok(d),
        e.throws.len() > 0,
        d.eye_count == e.throws.len(),
        !e.throws[e.throws.len() - 1].has_correction_increments,
        i32::MIN < d.correction_increments_151 < i32::MAX,
    ensures
        compared_of(d, e) == Some(
            (
                e.throws[e.throws.len() - 1].correction,
                d.throws[e.throws.len() - 1].correction,
            ),
        ),
        0x3e11_2e0b_e826_d695 < delta <= 0x7ff0_0000_0000_0000 ==> increments_after(d, e, delta)
            == d.correction_increments_151 + 1,
        0xbe11_2e0b_e826_d695 < delta <= 0xfff0_0000_0000_0000 ==> increments_after(d, e, delta)
            == d.correction_increments_151 - 1,
        delta <= 0x3e11_2e0b_e826_d695 || 0x8000_0000_0000_0000 <= delta <= 0xbe11_2e0b_e826_d695
            ==> increments_after(d, e, delta) == d.correction_increments_151,
{
}

/// A correction or an error counts as one from 1e-9 on, of either sign.
pub proof fn law_small_corrections_do_not_count(
    d: DataView,
    e: EventView,
    delta: u64,
    angle_diff: u64,
    angles: Seq<(u64, u64)>,
)
    requires
        e.result_type != "NONE"@,
        e.throws.len() > 0,
    ensures
        ({
            let n = after_stronghold(d, e, delta, angle_diff, angles);
            let t = e.throws[e.throws.len() - 1];
            &&& t.correction <= 0x3e11_2e0b_e826_d695 || 0x8000_0000_0000_0000 <= t.correction
                <= 0xbe11_2e0b_e826_d695 ==> !n.has_correction
            &&& 0x3e11_2e0b_e826_d695 < t.correction <= 0x7ff0_0000_0000_0000
                || 0xbe11_2e0b_e826_d695 < t.correction <= 0xfff0_0000_0000_0000
                ==> n.has_correction
            &&& t.error <= 0x3e11_2e0b_e826_d695 || 0x8000_0000_0000_0000 <= t.error
                <= 0xbe11_2e0b_e826_d695 ==> !n.has_throw_error
            &&& 0x3e11_2e0b_e826_d695 < t.error <= 0x7ff0_0000_0000_0000 || 0xbe11_2e0b_e826_d695
                < t.error <= 0xfff0_0000_0000_0000 ==> n.has_throw_error
        }),
{
}

/// A boat event sets the state and the angle that it holds; an angle that is
/// missing or null is none, and a missing state is "NONE".
pub proof fn law_boat_round_trip(d: DataView, j: Json, state: Seq<char>, angle: u64)
    ensures
        holds_text(j, "boatState"@, state) ==> after_boat(d, j).boat_state == state,
        lacks(j, "boatState"@) ==> after_boat(d, j).boat_state == "NONE"@,
        holds_number(j, "boatAngle"@, angle) ==> after_boat(d, j).boat_angle == angle
            && after_boat(d, j).has_boat_angle,
        lacks(j, "boatAngle"@) || holds(j, "boatAngle"@, Json::Null) ==> after_boat(
            d,
            j,
        ).boat_angle == 0 && !after_boat(d, j).has_boat_angle,
{
    law_texts_are_read(j, "boatState"@, state, j, "NONE"@);
    law_numbers_are_read(j, "boatAngle"@, angle, Json::Null, 0);
}

/// `j` is the message `m` as the bot writes it.
pub open spec fn writes_message(j: Json, m: InfoView) -> bool {
    &&& holds_text(j, "severity"@, m.severity)
    &&& holds_text(j, "type"@, m.msg_type)
    &&& holds_text(j, "message"@, m.message)
}

/// An information event replaces the messages by its own, as they were written
/// and in their order, the first eight of them; without a list there are none.
pub proof fn law_messages_round_trip(d: DataView, j: Json, a: Seq<Json>, i: int, m: InfoView)
    ensures
        holds_array(j, "informationMessages"@, a) ==> after_info(d, j).information_messages.len()
            == if a.len() < 8 {
            a.len()
        } else {
            8
        },
        holds_array(j, "informationMessages"@, a) && 0 <= i < 8 && i < a.len() && writes_message(
            a[i],
            m,
        ) ==> after_info(d, j).information_messages[i] == m,
        holds_array(j, "informationMessages"@, a) && 0 <= i < 8 && i < a.len() && lacks(
            a[i],
            "severity"@,
        ) ==> after_info(d, j).information_messages[i].severity == "INFO"@,
        lacks(j, "informationMessages"@) ==> after_info(d, j).information_messages.len() == 0,
{
    law_lists_are_read(j, "informationMessages"@, a, j);
    if holds_array(j, "informationMessages"@, a) && 0 <= i < 8 && i < a.len() {
        law_texts_are_read(a[i], "severity"@, m.severity, j, "INFO"@);
        law_texts_are_read(a[i], "type"@, m.msg_type, j, ""@);
        law_texts_are_read(a[i], "message"@, m.message, j, ""@);
        if writes_message(a[i], m) {
            assert(info_of(a[i]) =~= m);
        }
    }
}

/// `j` is the result `b` of blind travel as the bot writes it.
pub open spec fn writes_blind_result(j: Json, b: BlindView) -> bool {
    &&& holds_text(j, "evaluation"@, b.evaluation)
    &&& holds_number(j, "xInNether"@, b.x_in_nether)
    &&& holds_number(j, "zInNether"@, b.z_in_nether)
    &&& holds_number(j, "improveDistance"@, b.improve_distance)
    &&& holds_number(j, "averageDistance"@, b.average_distance)
    &&& holds_number(j, "improveDirection"@, b.improve_direction)
    &&& holds_number(j, "highrollProbability"@, b.highroll_probability)
    &&& holds_number(j, "highrollThreshold"@, b.highroll_threshold)
}

/// A blind event that turns blind travel on is read as it was written, with its
/// result where it has one; else only that it is on is known. Without a word on
/// blind travel it is off.
pub proof fn law_blind_round_trip(j: Json, result: Json, b: BlindView)
    ensures
        holds(j, "isBlindModeEnabled"@, Json::Bool(true)) && holds(
            j,
            "hasDivine"@,
            Json::Bool(b.has_divine),
        ) && holds(j, "blindResult"@, result) && writes_blind_result(result, b) && b.enabled
            && b.has_result ==> blind_of(j) == b,
        holds(j, "isBlindModeEnabled"@, Json::Bool(true)) && (lacks(j, "blindResult"@) || holds(
            j,
            "blindResult"@,
            Json::Null,
        )) ==> blind_of(j).enabled && !blind_of(j).has_result && blind_of(j).x_in_nether == 0,
        holds(j, "isBlindModeEnabled"@, Json::Bool(false)) || lacks(j, "isBlindModeEnabled"@)
            ==> !blind_of(j).enabled && !blind_of(j).has_result,
{
    law_truths_are_read(j, "isBlindModeEnabled"@, true, j, false);
    law_truths_are_read(j, "isBlindModeEnabled"@, false, j, false);
    law_truths_are_read(j, "hasDivine"@, b.has_divine, j, false);
    law_lists_are_read(j, "blindResult"@, Seq::empty(), result);
    law_lists_are_read(j, "blindResult"@, Seq::empty(), Json::Null);
    law_texts_are_read(result, "evaluation"@, b.evaluation, j, ""@);
    law_numbers_are_read(result, "xInNether"@, b.x_in_nether, j, 0);
    law_numbers_are_read(result, "zInNether"@, b.z_in_nether, j, 0);
    law_numbers_are_read(result, "improveDistance"@, b.improve_distance, j, 0);
    law_numbers_are_read(result, "averageDistance"@, b.average_distance, j, 0);
    law_numbers_are_read(result, "improveDirection"@, b.improve_direction, j, 0);
    law_numbers_are_read(result, "highrollProbability"@, b.highroll_probability, j, 0);
    law_numbers_are_read(result, "highrollThreshold"@, b.highroll_threshold, j, 0);
    if writes_blind_result(result, b) && blind_of(j).has_result && blind_of(j).has_divine
        == b.has_divine && b.enabled && b.has_result && holds(j, "blindResult"@, result) {
        assert(blind_of(j) =~= b);
    }
}

/// Losing a stream forgets what came from it and nothing else: after the loss of
/// the stronghold stream nothing is found, and the boat, blind travel and the
/// messages are as they were.
pub proof fn law_lost_stronghold(d: DataView)
    ensures
        ({
            let n = without_stronghold(d);
            &&& n.result_type == "NONE"@ && !n.valid_prediction
            &&& n.predictions.len() == 0 && n.throws.len() == 0 && n.prediction_angles.len() == 0
            &&& n.eye_count == 0 && n.prediction_count == 0 && !n.has_player_pos
            &&& n.boat_state == d.boat_state && n.boat_angle == d.boat_angle && n.has_boat_angle
                == d.has_boat_angle
            &&& n.blind == d.blind && n.information_messages == d.information_messages
        }),
        ({
            let n = no_data();
            n.result_type == "NONE"@ && n.boat_state == "NONE"@ && n.information_messages.len()
                == 0 && !n.blind.enabled && !n.blind.has_result && n.last_update is None
        }),
{
}

/// An angle points to the block at (4, 4) of its prediction's chunk, which is
/// sixteen blocks wide.
pub proof fn law_angles_point_into_the_chunk(p: NbbPrediction)
    ensures
        target_of(p).0 as int / 16 == p.chunk_x && target_of(p).1 as int / 16 == p.chunk_z,
        target_of(p).0 as int % 16 == 4 && target_of(p).1 as int % 16 == 4,
{
}

/// Where nothing is known every number is zero and nothing is there.
pub proof fn law_nothing_is_known()
    ensures
        ({
            let b = no_blind();
            &&& !b.enabled && !b.has_divine && !b.has_result && b.evaluation.len() == 0
            &&& b.x_in_nether == 0 && b.z_in_nether == 0 && b.improve_distance == 0
            &&& b.average_distance == 0 && b.improve_direction == 0
            &&& b.highroll_probability == 0 && b.highroll_threshold == 0
        }),
        ({
            let n = no_data();
            &&& n.stronghold_x == 0 && n.stronghold_z == 0 && n.distance == 0 && n.certainty == 0
            &&& n.predictions.len() == 0 && n.prediction_angles.len() == 0 && n.prediction_count == 0
            &&& n.throws.len() == 0 && n.eye_count == 0 && n.last_angle == 0 && n.prev_angle == 0
            &&& !n.has_angle_change && n.last_correction == 0 && n.last_throw_error == 0
            &&& n.last_angle_without_correction == 0 && !n.has_correction && !n.has_throw_error
            &&& !n.has_nether_angle && n.nether_angle == 0 && n.nether_angle_diff == 0
            &&& n.player_x == 0 && n.player_z == 0 && n.player_horizontal_angle == 0
            &&& !n.player_in_nether && !n.has_player_pos && n.blind == no_blind()
        }),
{
}

/// The angle that is turned goes from the first throw to the last, and the
/// correction that is compared from the old last throw to the new one: only where as
/// many throws were known and the bot does not count by itself.
pub proof fn law_compared_throws(d: DataView, e: EventView)
    ensures
        e.throws.len() == 0 ==> turned_of(e) is None && compared_of(d, e) is None,
        e.throws.len() > 0 ==> turned_of(e) == Some(
            (e.throws[e.throws.len() - 1].angle, e.throws[0].angle),
        ),
        d.eye_count != e.throws.len() ==> compared_of(d, e) is None,
        e.throws.len() > 0 && e.throws[e.throws.len() - 1].has_correction_increments
            ==> compared_of(d, e) is None,
{
}

} // verus!
