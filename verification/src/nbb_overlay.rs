//! The stronghold panel: when it is shown, what stands in it, in which order,
//! and where it goes on the screen.

use crate::cursor_image::{decode_png, Frame};
use crate::nbb_data::{is_above, is_below, NbbInfoMessage, NinjabrainData};
use crate::nbb_format::{blind_evaluation, format_angle_with_direction, format_coords, format_subpixel};
use crate::text::{begins_with, find_char, from_range, has_text, push_int, push_text, same_text, to_chars};
use crate::window_state::to_lowercase;
use vstd::prelude::*;
use vstd::string::*;

verus! {

use crate::cursor_image::png_picture;
use crate::nbb_data::{
    beyond_epsilon,
    BlindView,
    data_ok,
    DataView,
    InfoView,
    NbbPrediction,
    NbbPredictionAngle,
    ThrowView,
};
use crate::nbb_format::{blind_quarters, blind_words, coords_text, increment_suffix};
use crate::text::{contains, decimal, find_from, lemma_find_from, lemma_find_shift, matches_at, texts};
use crate::window_state::lowercase;

/// A column of the results.
pub struct ColumnConfig {
    pub id: String,
    pub header: String,
    pub show: bool,
    pub static_width: i32,
}

/// The settings of the panel, but for its lengths and colors.
pub struct OverlayConfig {
    pub enabled: bool,
    pub allowed_modes: Vec<String>,
    pub hide_if_stale: bool,
    pub hide_if_stale_delay_seconds: i32,
    pub always_show_boat: bool,
    pub always_show: bool,
    pub shown_predictions: i32,
    pub columns: Vec<ColumnConfig>,
    pub static_column_widths: bool,
    pub coords_display: String,
    pub show_direction_to_stronghold: bool,
    pub show_throw_details: bool,
    pub eye_throw_rows: i32,
    pub information_messages_placement: String,
    pub show_boat_state_in_top_bar: bool,
    pub relative_to: String,
    pub x: i32,
    pub y: i32,
}

// ---------------------------------------------------------------------------
// Visibility
// ---------------------------------------------------------------------------

/// A stronghold was found.
pub open spec fn has_triangulation(d: DataView) -> bool {
    d.valid_prediction && (d.result_type == "TRIANGULATION"@ || d.result_type == "DIVINE"@)
}

/// No stronghold fits the throws.
pub open spec fn has_failed(d: DataView) -> bool {
    d.result_type == "FAILED"@
}

/// There is something to say of blind travel.
pub open spec fn has_blind(d: DataView) -> bool {
    d.blind.enabled && d.blind.has_result
}

fn triangulated(d: &NinjabrainData) -> (r: bool)
    ensures
        r == has_triangulation(d@),
{
    d.valid_prediction && (same_text(d.result_type.as_str(), "TRIANGULATION") || same_text(
        d.result_type.as_str(),
        "DIVINE",
    ))
}

/// A mode is among the allowed ones.
pub open spec fn mode_allowed(modes: Seq<String>, mode: Seq<char>) -> bool {
    modes.len() == 0 || texts(modes).contains(mode)
}

/// The data is older than the settings allow: nothing came for so many seconds,
/// one at least.
pub open spec fn is_stale(last_update: Option<u64>, delay: i32, now: u64) -> bool {
    match last_update {
        Some(t) => (if now >= t {
            now - t
        } else {
            0
        }) >= (if delay > 1 {
            delay as int
        } else {
            1
        }) * 1000,
        None => true,
    }
}

/// The panel is shown.
pub open spec fn is_shown(
    cfg: OverlayConfig,
    visible: bool,
    mode: Seq<char>,
    d: DataView,
    now: u64,
) -> bool {
    &&& cfg.enabled && visible
    &&& mode_allowed(cfg.allowed_modes@, mode)
    &&& cfg.hide_if_stale ==> !is_stale(d.last_update, cfg.hide_if_stale_delay_seconds, now)
    &&& has_triangulation(d) || has_failed(d) || has_blind(d) || d.information_messages.len() > 0
        || cfg.always_show_boat || d.boat_state == "ERROR"@ || cfg.always_show
}

fn has_mode(modes: &Vec<String>, mode: &str) -> (r: bool)
    ensures
        r == texts(modes@).contains(mode@),
{
    let mut i: usize = 0;
    while i < modes.len()
        invariant
            i <= modes@.len(),
            forall|k: int| 0 <= k < i ==> (#[trigger] modes@[k])@ != mode@,
        decreases modes.len() - i,
    {
        if same_text(modes[i].as_str(), mode) {
            assert(texts(modes@)[i as int] == mode@);
            return true;
        }
        i += 1;
    }
    assert forall|k: int| 0 <= k < texts(modes@).len() implies #[trigger] texts(modes@)[k]
        != mode@ by {
        assert(texts(modes@)[k] == modes@[k]@);
    }
    false
}

/// Whether the panel is shown. `visible` is what the hotkey last set; `now` is
/// in milliseconds.
pub fn overlay_should_show(
    cfg: &OverlayConfig,
    visible: bool,
    mode: &str,
    d: &NinjabrainData,
    now: u64,
) -> (r: bool)
    ensures
        r == is_shown(*cfg, visible, mode@, d@, now),
{
    if !cfg.enabled || !visible {
        return false;
    }
    if cfg.allowed_modes.len() > 0 && !has_mode(&cfg.allowed_modes, mode) {
        return false;
    }
    if cfg.hide_if_stale {
        let seconds: u64 = if cfg.hide_if_stale_delay_seconds > 1 {
            cfg.hide_if_stale_delay_seconds as u64
        } else {
            1
        };
        match d.last_update {
            Some(t) => {
                if now.saturating_sub(t) >= seconds * 1000 {
                    return false;
                }
            },
            None => {
                return false;
            },
        }
    }
    triangulated(d) || same_text(d.result_type.as_str(), "FAILED") || (d.blind.enabled
        && d.blind.has_result) || d.information_messages.len() > 0 || cfg.always_show_boat
        || same_text(d.boat_state.as_str(), "ERROR") || cfg.always_show
}

/// What the settings turn off is never shown, and with nothing to tell the panel
/// is shown only where the settings ask for it.
pub proof fn law_panel_hides(cfg: OverlayConfig, visible: bool, mode: Seq<char>, now: u64)
    ensures
        !cfg.enabled || !visible ==> forall|d: DataView| !#[trigger] is_shown(
            cfg,
            visible,
            mode,
            d,
            now,
        ),
        is_shown(cfg, visible, mode, crate::nbb_data::no_data(), now) ==> cfg.always_show
            || cfg.always_show_boat,
{
    reveal_strlit("NONE");
    reveal_strlit("ERROR");
    reveal_strlit("FAILED");
    reveal_strlit("TRIANGULATION");
    reveal_strlit("DIVINE");
    assert("NONE"@.len() == 4 && "ERROR"@.len() == 5 && "FAILED"@.len() == 6);
    assert("TRIANGULATION"@.len() == 13 && "DIVINE"@.len() == 6);
}

/// Nothing keeps the panel from being shown: it is enabled and switched on, its
/// modes are not limited or this one is among them, and the data came within the
/// time that is allowed, where one is.
pub open spec fn may_show(
    cfg: OverlayConfig,
    visible: bool,
    mode: Seq<char>,
    last_update: Option<u64>,
    now: u64,
) -> bool {
    &&& cfg.enabled
    &&& visible
    &&& cfg.allowed_modes@.len() == 0 || exists|i: int|
        0 <= i < cfg.allowed_modes@.len() && (#[trigger] cfg.allowed_modes@[i])@ == mode
    &&& cfg.hide_if_stale ==> (last_update matches Some(t) && now - t < 1000 * (
    if cfg.hide_if_stale_delay_seconds < 1 {
        1
    } else {
        cfg.hide_if_stale_delay_seconds as int
    }))
}

/// Where nothing keeps it from being shown, the panel appears as soon as there
/// is something to tell: a stronghold was found, the throws fit none, there is a
/// result for blind travel, there are messages, or the boat could not be
/// measured. It also appears where the settings want it always.
pub proof fn law_panel_shows_news(
    cfg: OverlayConfig,
    visible: bool,
    mode: Seq<char>,
    d: DataView,
    now: u64,
)
    requires
        may_show(cfg, visible, mode, d.last_update, now),
    ensures
        d.valid_prediction && d.result_type == "TRIANGULATION"@ ==> is_shown(
            cfg,
            visible,
            mode,
            d,
            now,
        ),
        d.valid_prediction && d.result_type == "DIVINE"@ ==> is_shown(cfg, visible, mode, d, now),
        d.result_type == "FAILED"@ ==> is_shown(cfg, visible, mode, d, now),
        d.blind.enabled && d.blind.has_result ==> is_shown(cfg, visible, mode, d, now),
        d.information_messages.len() > 0 ==> is_shown(cfg, visible, mode, d, now),
        d.boat_state == "ERROR"@ ==> is_shown(cfg, visible, mode, d, now),
        cfg.always_show ==> is_shown(cfg, visible, mode, d, now),
        cfg.always_show_boat ==> is_shown(cfg, visible, mode, d, now),
{
    if cfg.allowed_modes@.len() > 0 {
        let i = choose|i: int|
            0 <= i < cfg.allowed_modes@.len() && (#[trigger] cfg.allowed_modes@[i])@ == mode;
        assert(texts(cfg.allowed_modes@)[i] == mode);
    }
}

/// The panel is hidden where anything keeps it from being shown, and where there
/// is nothing to tell and the settings do not want it always: a result that is
/// not valid is nothing to tell.
pub proof fn law_panel_stays_hidden(
    cfg: OverlayConfig,
    visible: bool,
    mode: Seq<char>,
    d: DataView,
    now: u64,
)
    ensures
        !may_show(cfg, visible, mode, d.last_update, now) ==> !is_shown(
            cfg,
            visible,
            mode,
            d,
            now,
        ),
        !cfg.always_show && !cfg.always_show_boat && d.boat_state != "ERROR"@
            && d.information_messages.len() == 0 && !(d.blind.enabled && d.blind.has_result)
            && d.result_type != "FAILED"@ && !(d.valid_prediction && (d.result_type
            == "TRIANGULATION"@ || d.result_type == "DIVINE"@)) ==> !is_shown(
            cfg,
            visible,
            mode,
            d,
            now,
        ),
{
    if is_shown(cfg, visible, mode, d, now) && cfg.allowed_modes@.len() > 0 {
        let all = texts(cfg.allowed_modes@);
        let i = choose|i: int| 0 <= i < all.len() && all[i] == mode;
        assert(cfg.allowed_modes@[i]@ == mode);
    }
}

// ---------------------------------------------------------------------------
// Place on the screen
// ---------------------------------------------------------------------------

/// Twice the left edge and twice the top edge of a panel.
pub open spec fn doubled_position(cfg: OverlayConfig, w: int, h: int, sw: int, sh: int) -> (int, int) {
    let x = cfg.x as int;
    let y = cfg.y as int;
    if cfg.relative_to@ == "topRightScreen"@ {
        (2 * (sw - w - x), 2 * y)
    } else if cfg.relative_to@ == "bottomLeftScreen"@ {
        (2 * x, 2 * (sh - h - y))
    } else if cfg.relative_to@ == "bottomRightScreen"@ {
        (2 * (sw - w - x), 2 * (sh - h - y))
    } else if cfg.relative_to@ == "centerScreen"@ {
        (sw - w + 2 * x, sh - h + 2 * y)
    } else {
        (2 * x, 2 * y)
    }
}

/// The place of a panel of a size on a screen, in half pixels.
pub fn anchor_position(cfg: &OverlayConfig, w: u32, h: u32, sw: u32, sh: u32) -> (r: (i64, i64))
    ensures
        (r.0 as int, r.1 as int) == doubled_position(
            *cfg,
            w as int,
            h as int,
            sw as int,
            sh as int,
        ),
{
    let dx: i64 = sw as i64 - w as i64;
    let dy: i64 = sh as i64 - h as i64;
    let x: i64 = cfg.x as i64;
    let y: i64 = cfg.y as i64;
    let to = cfg.relative_to.as_str();
    if same_text(to, "topRightScreen") {
        (2 * (dx - x), 2 * y)
    } else if same_text(to, "bottomLeftScreen") {
        (2 * x, 2 * (dy - y))
    } else if same_text(to, "bottomRightScreen") {
        (2 * (dx - x), 2 * (dy - y))
    } else if same_text(to, "centerScreen") {
        (dx + 2 * x, dy + 2 * y)
    } else {
        (2 * x, 2 * y)
    }
}

/// A number of half pixels in whole pixels, halves away from zero.
pub open spec fn whole_pixels(halves: int) -> int {
    if halves >= 0 {
        (halves + 1) / 2
    } else {
        -((1 - halves) / 2)
    }
}

/// A number of half pixels in whole pixels.
pub fn snapped(halves: i64) -> (r: i64)
    ensures
        r as int == whole_pixels(halves as int),
{
    if halves >= 0 {
        halves / 2 + halves % 2
    } else if halves % 2 == 0 {
        halves / 2
    } else {
        -((-(halves + 1)) / 2) - 1
    }
}

/// A panel of the same size sits as far from the right and bottom edges as its
/// mirror image sits from the left and top edges.
pub proof fn law_corners_mirror(a: OverlayConfig, b: OverlayConfig, w: int, h: int, sw: int, sh: int)
    requires
        a.relative_to@ == "bottomRightScreen"@,
        b.relative_to@ == "topLeftScreen"@,
        a.x == b.x,
        a.y == b.y,
    ensures
        doubled_position(a, w, h, sw, sh).0 + 2 * w == 2 * sw - doubled_position(
            b,
            w,
            h,
            sw,
            sh,
        ).0,
        doubled_position(a, w, h, sw, sh).1 + 2 * h == 2 * sh - doubled_position(
            b,
            w,
            h,
            sw,
            sh,
        ).1,
{
    reveal_strlit("topLeftScreen");
    reveal_strlit("topRightScreen");
    reveal_strlit("bottomLeftScreen");
    reveal_strlit("bottomRightScreen");
    reveal_strlit("centerScreen");
    assert("topLeftScreen"@.len() == 13 && "topRightScreen"@.len() == 14);
    assert("bottomLeftScreen"@.len() == 16 && "bottomRightScreen"@.len() == 17);
    assert("centerScreen"@.len() == 12);
}

// ---------------------------------------------------------------------------
// Sections and rows
// ---------------------------------------------------------------------------

/// A section of the panel.
#[derive(Clone, Copy, Debug, PartialEq, Eq, Structural)]
pub enum Section {
    Messages,
    Results,
    Failure,
    Blind,
    Throws,
}

/// The section that stands where the results are.
pub open spec fn main_section(d: DataView) -> Section {
    if has_triangulation(d) {
        Section::Results
    } else if has_failed(d) {
        Section::Failure
    } else if has_blind(d) {
        Section::Blind
    } else {
        Section::Results
    }
}

/// The messages, where they have this place.
pub open spec fn messages_at(cfg: OverlayConfig, d: DataView, place: Seq<char>) -> Seq<Section> {
    if d.information_messages.len() > 0 && cfg.information_messages_placement@ == place {
        seq![Section::Messages]
    } else {
        Seq::empty()
    }
}

/// The sections of the panel from top to bottom.
pub open spec fn sections_of(cfg: OverlayConfig, d: DataView) -> Seq<Section> {
    messages_at(cfg, d, "top"@) + seq![main_section(d)] + messages_at(cfg, d, "middle"@)
        + (if cfg.show_throw_details {
        seq![Section::Throws]
    } else {
        Seq::empty()
    }) + messages_at(cfg, d, "bottom"@)
}

fn messages_here(cfg: &OverlayConfig, d: &NinjabrainData, place: &str) -> (r: bool)
    ensures
        r == (messages_at(*cfg, d@, place@).len() > 0),
{
    d.information_messages.len() > 0 && same_text(
        cfg.information_messages_placement.as_str(),
        place,
    )
}

/// The sections of the panel from top to bottom.
pub fn panel_sections(cfg: &OverlayConfig, d: &NinjabrainData) -> (r: Vec<Section>)
    ensures
        r@ == sections_of(*cfg, d@),
{
    let mut r: Vec<Section> = Vec::new();
    if messages_here(cfg, d, "top") {
        r.push(Section::Messages);
    }
    if triangulated(d) {
        r.push(Section::Results);
    } else if same_text(d.result_type.as_str(), "FAILED") {
        r.push(Section::Failure);
    } else if d.blind.enabled && d.blind.has_result {
        r.push(Section::Blind);
    } else {
        r.push(Section::Results);
    }
    if messages_here(cfg, d, "middle") {
        r.push(Section::Messages);
    }
    if cfg.show_throw_details {
        r.push(Section::Throws);
    }
    if messages_here(cfg, d, "bottom") {
        r.push(Section::Messages);
    }
    r
}

/// The results, the failure and blind travel exclude each other, and the
/// messages are shown at most once.
pub proof fn law_sections_exclude(cfg: OverlayConfig, d: DataView, i: int, j: int)
    requires
        0 <= i < j < sections_of(cfg, d).len(),
    ensures
        sections_of(cfg, d)[i] != sections_of(cfg, d)[j],
        sections_of(cfg, d)[i] is Throws || sections_of(cfg, d)[i] is Messages || sections_of(
            cfg,
            d,
        )[j] is Throws || sections_of(cfg, d)[j] is Messages,
{
    reveal_strlit("top");
    reveal_strlit("middle");
    reveal_strlit("bottom");
    assert("middle"@[0] != "bottom"@[0]);
}

/// The counts of the data are in step with its lists.
pub open spec fn counts_ok(d: DataView) -> bool {
    0 <= d.prediction_count <= d.predictions.len() && 0 <= d.eye_count <= d.throws.len()
}

/// Whatever came from the bot has its counts in step with its lists.
pub proof fn law_data_has_counts(d: DataView)
    requires
        data_ok(d),
    ensures
        counts_ok(d),
{
}

/// The rows that the settings ask for, between one and five.
pub open spec fn wanted_rows(shown: int) -> int {
    if shown < 1 {
        1
    } else if shown > 5 {
        5
    } else {
        shown
    }
}

/// The rows of the results: as many as there are predictions, up to the wanted
/// ones; all wanted ones where the panel is always shown.
pub open spec fn base_rows(cfg: OverlayConfig, d: DataView) -> int {
    let want = wanted_rows(cfg.shown_predictions as int);
    if cfg.always_show || d.prediction_count > want {
        want
    } else {
        d.prediction_count as int
    }
}

/// The rows of the results that hold a prediction.
pub open spec fn data_rows(cfg: OverlayConfig, d: DataView) -> int {
    if d.prediction_count < base_rows(cfg, d) {
        d.prediction_count as int
    } else {
        base_rows(cfg, d)
    }
}

/// The number of rows of the results, and of those that hold a prediction.
pub fn result_rows(cfg: &OverlayConfig, d: &NinjabrainData) -> (r: (usize, usize))
    requires
        counts_ok(d@),
    ensures
        r.0 as int == base_rows(*cfg, d@),
        r.1 as int == data_rows(*cfg, d@),
        r.1 <= d@.predictions.len(),
{
    let want: i32 = if cfg.shown_predictions < 1 {
        1
    } else if cfg.shown_predictions > 5 {
        5
    } else {
        cfg.shown_predictions
    };
    let have: i32 = if d.prediction_count < want {
        d.prediction_count
    } else {
        want
    };
    let base: i32 = if cfg.always_show {
        want
    } else {
        have
    };
    let filled: i32 = if d.prediction_count < base {
        d.prediction_count
    } else {
        base
    };
    (base as usize, filled as usize)
}

/// The rows of the throws: as many as there are throws, and at least as many as
/// the settings ask for.
pub open spec fn throw_rows(cfg: OverlayConfig, d: DataView) -> int {
    if d.eye_count > cfg.eye_throw_rows {
        d.eye_count as int
    } else {
        cfg.eye_throw_rows as int
    }
}

pub fn throws_row_count(cfg: &OverlayConfig, d: &NinjabrainData) -> (r: u32)
    requires
        counts_ok(d@),
    ensures
        r as int == throw_rows(*cfg, d@),
{
    if d.eye_count > cfg.eye_throw_rows {
        d.eye_count as u32
    } else {
        cfg.eye_throw_rows as u32
    }
}

/// The icon of the boat in the bar above the results: gray, blue, green or red.
pub open spec fn boat_icon_of(cfg: OverlayConfig, d: DataView) -> Option<int> {
    if cfg.show_boat_state_in_top_bar && (cfg.always_show_boat || d.boat_state != "NONE"@) {
        if d.boat_state == "MEASURING"@ {
            Some(1)
        } else if d.boat_state == "VALID"@ {
            Some(2)
        } else if d.boat_state == "ERROR"@ {
            Some(3)
        } else {
            Some(0)
        }
    } else {
        None
    }
}

pub fn boat_icon(cfg: &OverlayConfig, d: &NinjabrainData) -> (r: Option<usize>)
    ensures
        r is Some <==> boat_icon_of(*cfg, d@) is Some,
        r matches Some(i) ==> boat_icon_of(*cfg, d@) == Some(i as int),
{
    let state = d.boat_state.as_str();
    if !cfg.show_boat_state_in_top_bar {
        return None;
    }
    if !cfg.always_show_boat && same_text(state, "NONE") {
        return None;
    }
    if same_text(state, "MEASURING") {
        Some(1)
    } else if same_text(state, "VALID") {
        Some(2)
    } else if same_text(state, "ERROR") {
        Some(3)
    } else {
        Some(0)
    }
}

/// The icon of a message: a lock, a warning or plain information. `kind` is the
/// kind of the message in lower case.
pub open spec fn icon_of(kind: Seq<char>, severity: Seq<char>) -> int {
    if contains(kind, "lock"@) {
        6
    } else if severity == "WARNING"@ || severity == "ERROR"@ {
        5
    } else {
        4
    }
}

/// The icon of a message whose kind is given in lower case.
pub fn icon_of_lower_kind(kind: &str, severity: &str) -> (r: usize)
    ensures
        r as int == icon_of(kind@, severity@),
{
    if has_text(kind, "lock") {
        6
    } else if same_text(severity, "WARNING") || same_text(severity, "ERROR") {
        5
    } else {
        4
    }
}

/// The icon of a message.
pub fn message_icon(m: &NbbInfoMessage) -> (r: usize)
    ensures
        r as int == icon_of(lowercase(m@.msg_type), m@.severity),
{
    icon_of_lower_kind(to_lowercase(m.msg_type.as_str()).as_str(), m.severity.as_str())
}

/// An icon from a PNG; one that cannot be read is a white pixel.
pub fn icon_picture(bytes: &[u8]) -> (r: Frame)
    ensures
        match png_picture(bytes@) {
            Some((rgba, w, h)) => r.pixels@ == rgba && r.width == w && r.height == h,
            None => r.pixels@ == seq![255u8, 255, 255, 255] && r.width == 1 && r.height == 1,
        },
{
    match decode_png(bytes) {
        Some((pixels, width, height)) => Frame { pixels, width, height },
        None => {
            let mut pixels: Vec<u8> = Vec::new();
            pixels.push(255);
            pixels.push(255);
            pixels.push(255);
            pixels.push(255);
            assert(pixels@ =~= seq![255u8, 255, 255, 255]);
            Frame { pixels, width: 1, height: 1 }
        },
    }
}

/// The file of a font: a path in the home directory may begin with a tilde.
pub open spec fn font_path_of(path: Seq<char>, home: Option<Seq<char>>) -> Seq<char> {
    match home {
        Some(h) => if matches_at(path, "~/"@, 0) {
            h + "/"@ + path.skip(2)
        } else {
            path
        },
        None => path,
    }
}

pub fn font_file(path: &str, home: Option<&str>) -> (r: String)
    ensures
        r@ == font_path_of(
            path@,
            match home {
                Some(h) => Some(h@),
                None => None,
            },
        ),
{
    match home {
        Some(h) => {
            if begins_with(path, "~/") {
                proof {
                    reveal_strlit("~/");
                }
                let v = to_chars(path);
                let rest = from_range(&v, 2, v.len());
                assert(rest@ =~= path@.skip(2));
                let mut s: String = h.to_owned();
                s.append("/");
                s.append(rest.as_str());
                s
            } else {
                path.to_owned()
            }
        },
        None => path.to_owned(),
    }
}

// ---------------------------------------------------------------------------
// Cells
// ---------------------------------------------------------------------------

/// A color of the panel. Those of the gradient carry the double that they stand
/// for, as its bits, or the quarters of a blind rating.
#[derive(Clone, Copy, Debug, PartialEq, Eq, Structural)]
pub enum PanelColor {
    Clear,
    Text,
    Data,
    ThrowsText,
    CoordPositive,
    CoordNegative,
    SubpixelPositive,
    SubpixelNegative,
    /// By a certainty.
    Certainty(u64),
    /// By the size of a correction.
    Correction(u64),
    /// By the chance of a high roll.
    HighRoll(u64),
    /// By the rating of a blind throw.
    Blind(u8),
}

/// A cell. Where it has a prefix, the text up to the prefix's width has a color
/// of its own, and may be what is centered.
pub struct Cell {
    pub text: String,
    pub color: PanelColor,
    pub prefix: String,
    pub part1_color: PanelColor,
    pub center_on_part1: bool,
}

/// What a cell shows.
#[verifier::ext_equal]
pub struct CellView {
    pub text: Seq<char>,
    pub color: PanelColor,
    pub prefix: Seq<char>,
    pub part1_color: PanelColor,
    pub center_on_part1: bool,
}

impl View for Cell {
    type V = CellView;

    open spec fn view(&self) -> CellView {
        CellView {
            text: self.text@,
            color: self.color,
            prefix: self.prefix@,
            part1_color: self.part1_color,
            center_on_part1: self.center_on_part1,
        }
    }
}

pub open spec fn cell_views(v: Seq<Cell>) -> Seq<CellView> {
    v.map_values(|c: Cell| c@)
}

/// A cell of one color.
pub open spec fn plain(text: Seq<char>, color: PanelColor) -> CellView {
    CellView {
        text,
        color,
        prefix: Seq::empty(),
        part1_color: PanelColor::Clear,
        center_on_part1: false,
    }
}

fn plain_cell(text: String, color: PanelColor) -> (r: Cell)
    ensures
        r@ == plain(text@, color),
{
    Cell {
        text,
        color,
        prefix: String::new(),
        part1_color: PanelColor::Clear,
        center_on_part1: false,
    }
}

/// A pair of coordinates, each in the color of its sign.
pub open spec fn coords_cell_of(x: int, z: int) -> CellView {
    CellView {
        text: coords_text(x, z),
        color: if z < 0 {
            PanelColor::CoordNegative
        } else {
            PanelColor::CoordPositive
        },
        prefix: if (x < 0) == (z < 0) {
            Seq::empty()
        } else {
            "("@ + decimal(x) + ", "@
        },
        part1_color: if x < 0 {
            PanelColor::CoordNegative
        } else {
            PanelColor::CoordPositive
        },
        center_on_part1: false,
    }
}

fn coords_cell(x: i64, z: i64) -> (r: Cell)
    ensures
        r@ == coords_cell_of(x as int, z as int),
{
    let (text, color, prefix, part1_color) = format_coords(
        x,
        z,
        PanelColor::CoordPositive,
        PanelColor::CoordNegative,
    );
    Cell { text, color, prefix, part1_color, center_on_part1: false }
}

/// An angle with its increments; one without increments has one color.
pub open spec fn subpixel_cell_of(angle: Seq<char>, increments: i32, color: PanelColor) -> CellView {
    if increments == 0 {
        plain(angle, color)
    } else {
        CellView {
            text: angle + increment_suffix(increments as int),
            color: if increments > 0 {
                PanelColor::SubpixelPositive
            } else {
                PanelColor::SubpixelNegative
            },
            prefix: angle,
            part1_color: PanelColor::Text,
            center_on_part1: false,
        }
    }
}

fn subpixel_cell(angle: &str, increments: i32, color: PanelColor) -> (r: Cell)
    ensures
        r@ == subpixel_cell_of(angle@, increments, color),
{
    if increments == 0 {
        return plain_cell(angle.to_owned(), color);
    }
    let signed = if increments > 0 {
        PanelColor::SubpixelPositive
    } else {
        PanelColor::SubpixelNegative
    };
    Cell {
        text: format_subpixel(angle, increments),
        color: signed,
        prefix: angle.to_owned(),
        part1_color: PanelColor::Text,
        center_on_part1: false,
    }
}

/// The numbers of a prediction as texts: its certainty in percent, its distance
/// in whole blocks, the angle to it, and the size of the correction, with
/// whether that is above zero.
pub struct RowTexts {
    pub certainty: String,
    pub distance: i64,
    pub angle: String,
    pub correction: String,
    pub positive: bool,
}

#[verifier::ext_equal]
pub struct RowTextsView {
    pub certainty: Seq<char>,
    pub distance: i64,
    pub angle: Seq<char>,
    pub correction: Seq<char>,
    pub positive: bool,
}

impl View for RowTexts {
    type V = RowTextsView;

    open spec fn view(&self) -> RowTextsView {
        RowTextsView {
            certainty: self.certainty@,
            distance: self.distance,
            angle: self.angle@,
            correction: self.correction@,
            positive: self.positive,
        }
    }
}

/// An angle with the correction behind it, centered on the angle.
pub open spec fn direction_cell_of(a: NbbPredictionAngle, t: RowTextsView) -> CellView {
    CellView {
        text: t.angle + " ("@ + (if t.positive {
            "-> "@
        } else {
            "<- "@
        }) + t.correction + ")"@,
        color: PanelColor::Correction(a.needed_correction),
        prefix: t.angle,
        part1_color: PanelColor::Data,
        center_on_part1: true,
    }
}

/// The angle cell of a prediction: the angle to it where that is known, else
/// that of the last throw where a stronghold was found.
pub open spec fn angle_cell_of(
    cfg: OverlayConfig,
    d: DataView,
    row: int,
    t: RowTextsView,
    last_angle: Seq<char>,
) -> CellView {
    if row < d.prediction_angles.len() && d.prediction_angles[row].valid {
        if cfg.show_direction_to_stronghold {
            direction_cell_of(d.prediction_angles[row], t)
        } else {
            plain(t.angle, PanelColor::Data)
        }
    } else if has_triangulation(d) {
        plain(last_angle, PanelColor::Data)
    } else {
        plain("-"@, PanelColor::Data)
    }
}

/// The cell of a prediction in the column of a name.
pub open spec fn prediction_cell(
    id: Seq<char>,
    cfg: OverlayConfig,
    d: DataView,
    row: int,
    t: RowTextsView,
    last_angle: Seq<char>,
) -> CellView {
    let p = d.predictions[row];
    if id == "coords"@ {
        if cfg.coords_display@ == "chunk"@ {
            coords_cell_of(p.chunk_x as int, p.chunk_z as int)
        } else {
            coords_cell_of(p.chunk_x * 16 + 4, p.chunk_z * 16 + 4)
        }
    } else if id == "certainty"@ {
        plain(t.certainty, PanelColor::Certainty(p.certainty))
    } else if id == "distance"@ {
        plain(decimal(t.distance as int), PanelColor::Data)
    } else if id == "nether"@ {
        coords_cell_of(p.chunk_x * 2, p.chunk_z * 2)
    } else if id == "angle"@ {
        angle_cell_of(cfg, d, row, t, last_angle)
    } else {
        plain(Seq::empty(), PanelColor::Clear)
    }
}

pub open spec fn row_text_views(v: Seq<RowTexts>) -> Seq<RowTextsView> {
    v.map_values(|t: RowTexts| t@)
}

/// The cells of the first `n` predictions.
pub open spec fn prediction_cells(
    id: Seq<char>,
    cfg: OverlayConfig,
    d: DataView,
    t: Seq<RowTextsView>,
    last_angle: Seq<char>,
    n: int,
) -> Seq<CellView>
    decreases n,
{
    if n <= 0 {
        Seq::empty()
    } else {
        prediction_cells(id, cfg, d, t, last_angle, n - 1).push(
            prediction_cell(id, cfg, d, n - 1, t[n - 1], last_angle),
        )
    }
}

/// The increments of the last throw.
pub open spec fn last_increments(d: DataView) -> i32 {
    let last = d.throws[d.eye_count - 1];
    if last.has_correction_increments {
        last.correction_increments
    } else {
        d.correction_increments_151
    }
}

/// The cells that the angle column has below the predictions: a dash where
/// nothing is known, and the last throw where the throws are not listed.
pub open spec fn angle_extras(cfg: OverlayConfig, d: DataView, rows: int, last_plain: Seq<char>) -> Seq<
    CellView,
> {
    (if rows == 0 && d.eye_count == 0 {
        seq![plain("-"@, PanelColor::Data)]
    } else {
        Seq::empty()
    }) + (if !cfg.show_throw_details && d.eye_count > 0 {
        seq![subpixel_cell_of(last_plain, last_increments(d), PanelColor::Text)]
    } else {
        Seq::empty()
    })
}

/// The cells of a column below its header.
pub open spec fn column_cells(
    id: Seq<char>,
    cfg: OverlayConfig,
    d: DataView,
    rows: int,
    t: Seq<RowTextsView>,
    last_angle: Seq<char>,
    last_plain: Seq<char>,
) -> Seq<CellView> {
    prediction_cells(id, cfg, d, t, last_angle, rows) + (if id == "angle"@ {
        angle_extras(cfg, d, rows, last_plain)
    } else {
        Seq::empty()
    })
}

/// A column of the results.
pub struct Column {
    pub header: String,
    pub left_align: bool,
    pub rows: Vec<Cell>,
}

fn push_cell(out: &mut Vec<Cell>, c: Cell)
    ensures
        cell_views(final(out)@) == cell_views(old(out)@).push(c@),
{
    out.push(c);
    assert(cell_views(out@) =~= cell_views(old(out)@).push(c@));
}

fn build_cell(
    id: &str,
    cfg: &OverlayConfig,
    d: &NinjabrainData,
    row: usize,
    t: &RowTexts,
    last_angle: &str,
) -> (r: Cell)
    requires
        row < d@.predictions.len(),
    ensures
        r@ == prediction_cell(id@, *cfg, d@, row as int, t@, last_angle@),
{
    let p = d.predictions[row];
    if same_text(id, "coords") {
        if same_text(cfg.coords_display.as_str(), "chunk") {
            coords_cell(p.chunk_x as i64, p.chunk_z as i64)
        } else {
            coords_cell(p.chunk_x as i64 * 16 + 4, p.chunk_z as i64 * 16 + 4)
        }
    } else if same_text(id, "certainty") {
        plain_cell(t.certainty.as_str().to_owned(), PanelColor::Certainty(p.certainty))
    } else if same_text(id, "distance") {
        let mut text: String = String::new();
        push_int(&mut text, t.distance);
        assert(text@ =~= decimal(t.distance as int));
        plain_cell(text, PanelColor::Data)
    } else if same_text(id, "nether") {
        coords_cell(p.chunk_x as i64 * 2, p.chunk_z as i64 * 2)
    } else if same_text(id, "angle") {
        if row < d.prediction_angles.len() && d.prediction_angles[row].valid {
            if cfg.show_direction_to_stronghold {
                let (text, prefix) = format_angle_with_direction(
                    t.angle.as_str(),
                    t.correction.as_str(),
                    t.positive,
                );
                Cell {
                    text,
                    color: PanelColor::Correction(d.prediction_angles[row].needed_correction),
                    prefix,
                    part1_color: PanelColor::Data,
                    center_on_part1: true,
                }
            } else {
                plain_cell(t.angle.as_str().to_owned(), PanelColor::Data)
            }
        } else if triangulated(d) {
            plain_cell(last_angle.to_owned(), PanelColor::Data)
        } else {
            plain_cell("-".to_owned(), PanelColor::Data)
        }
    } else {
        plain_cell(String::new(), PanelColor::Clear)
    }
}

/// Fills a column of the results with `rows` predictions. `last_angle` and
/// `last_plain` are the angle of the last throw with and without its correction,
/// as texts.
pub fn build_column(
    column: &ColumnConfig,
    cfg: &OverlayConfig,
    d: &NinjabrainData,
    rows: usize,
    t: &Vec<RowTexts>,
    last_angle: &str,
    last_plain: &str,
) -> (r: Column)
    requires
        counts_ok(d@),
        rows <= d@.predictions.len(),
        rows <= t@.len(),
    ensures
        r.header@ == column.header@,
        r.left_align == (column.id@ == "angle"@),
        cell_views(r.rows@) == column_cells(
            column.id@,
            *cfg,
            d@,
            rows as int,
            row_text_views(t@),
            last_angle@,
            last_plain@,
        ),
{
    let id = column.id.as_str();
    let mut out: Vec<Cell> = Vec::new();
    let mut i: usize = 0;
    assert(cell_views(out@) =~= prediction_cells(
        id@,
        *cfg,
        d@,
        row_text_views(t@),
        last_angle@,
        0,
    ));
    while i < rows
        invariant
            i <= rows,
            rows <= d@.predictions.len(),
            rows <= t@.len(),
            cell_views(out@) == prediction_cells(
                id@,
                *cfg,
                d@,
                row_text_views(t@),
                last_angle@,
                i as int,
            ),
        decreases rows - i,
    {
        let c = build_cell(id, cfg, d, i, &t[i], last_angle);
        assert(row_text_views(t@)[i as int] == t@[i as int]@);
        push_cell(&mut out, c);
        i += 1;
    }
    let left_align = same_text(id, "angle");
    if left_align {
        if rows == 0 && d.eye_count == 0 {
            push_cell(&mut out, plain_cell("-".to_owned(), PanelColor::Data));
        }
        if !cfg.show_throw_details && d.eye_count > 0 {
            let last = &d.throws[d.eye_count as usize - 1];
            assert(d@.throws[d.eye_count - 1] == d.throws@[d.eye_count - 1]@);
            let increments: i32 = if last.has_correction_increments {
                last.correction_increments
            } else {
                d.correction_increments_151
            };
            push_cell(&mut out, subpixel_cell(last_plain, increments, PanelColor::Text));
        }
    }
    assert(cell_views(out@) =~= column_cells(
        id@,
        *cfg,
        d@,
        rows as int,
        row_text_views(t@),
        last_angle@,
        last_plain@,
    ));
    Column { header: column.header.as_str().to_owned(), left_align, rows: out }
}

/// The widest texts that a column of fixed width is made for.
pub open spec fn samples_of(cfg: OverlayConfig, id: Seq<char>) -> Seq<Seq<char>> {
    if id == "coords"@ {
        seq![
            if cfg.coords_display@ == "chunk"@ {
                "(-999, -999)"@
            } else {
                "(-99999, -99999)"@
            },
        ]
    } else if id == "certainty"@ {
        seq!["100.00%"@]
    } else if id == "distance"@ {
        seq!["999999"@]
    } else if id == "nether"@ {
        seq!["(-99999, -99999)"@]
    } else if id == "angle"@ {
        let first = if cfg.show_direction_to_stronghold {
            "-359.99 (-> 359.0)"@
        } else {
            "-359.99"@
        };
        if cfg.show_throw_details {
            seq![first]
        } else {
            seq![first, "-359.99+999"@]
        }
    } else {
        Seq::empty()
    }
}

pub fn column_samples(cfg: &OverlayConfig, id: &str) -> (r: Vec<String>)
    ensures
        texts(r@) == samples_of(*cfg, id@),
{
    let mut r: Vec<String> = Vec::new();
    assert(texts(r@) =~= Seq::<Seq<char>>::empty());
    if same_text(id, "coords") {
        if same_text(cfg.coords_display.as_str(), "chunk") {
            push_text(&mut r, "(-999, -999)".to_owned());
        } else {
            push_text(&mut r, "(-99999, -99999)".to_owned());
        }
    } else if same_text(id, "certainty") {
        push_text(&mut r, "100.00%".to_owned());
    } else if same_text(id, "distance") {
        push_text(&mut r, "999999".to_owned());
    } else if same_text(id, "nether") {
        push_text(&mut r, "(-99999, -99999)".to_owned());
    } else if same_text(id, "angle") {
        if cfg.show_direction_to_stronghold {
            push_text(&mut r, "-359.99 (-> 359.0)".to_owned());
        } else {
            push_text(&mut r, "-359.99".to_owned());
        }
        if !cfg.show_throw_details {
            push_text(&mut r, "-359.99+999".to_owned());
        }
    }
    assert(texts(r@) =~= samples_of(*cfg, id@));
    r
}

/// The numbers of a throw as texts: its place, its angle without the correction,
/// and its error.
pub struct ThrowTexts {
    pub x: String,
    pub z: String,
    pub angle: String,
    pub error: String,
}

/// The increments that are shown for a throw: those that the bot reports, else,
/// for the last throw, the counted ones.
pub open spec fn shown_increments(d: DataView, row: int) -> i32 {
    if d.throws[row].has_correction_increments {
        d.throws[row].correction_increments
    } else if row + 1 == d.eye_count {
        d.correction_increments_151
    } else {
        0
    }
}

/// The cells of a throw; a row without a throw is empty.
pub open spec fn throw_cells(
    d: DataView,
    row: int,
    x: Seq<char>,
    z: Seq<char>,
    angle: Seq<char>,
    error: Seq<char>,
) -> Seq<CellView> {
    let color = PanelColor::ThrowsText;
    if row < d.throws.len() && row < d.eye_count {
        let t = d.throws[row];
        seq![
            plain(
                if t.has_position {
                    x
                } else {
                    "-"@
                },
                color,
            ),
            plain(
                if t.has_position {
                    z
                } else {
                    "-"@
                },
                color,
            ),
            subpixel_cell_of(angle, shown_increments(d, row), color),
            plain(
                if beyond_epsilon(t.error) {
                    error
                } else {
                    "-"@
                },
                color,
            ),
        ]
    } else {
        seq![
            plain(Seq::empty(), color),
            plain(Seq::empty(), color),
            plain(Seq::empty(), color),
            plain(Seq::empty(), color),
        ]
    }
}

fn known_or_dash(known: bool, text: &str) -> (r: String)
    ensures
        r@ == if known {
            text@
        } else {
            "-"@
        },
{
    if known {
        text.to_owned()
    } else {
        "-".to_owned()
    }
}

/// Fills a row of the throws.
pub fn throw_row_cells(d: &NinjabrainData, row: usize, t: &ThrowTexts) -> (r: Vec<Cell>)
    requires
        counts_ok(d@),
    ensures
        cell_views(r@) == throw_cells(d@, row as int, t.x@, t.z@, t.angle@, t.error@),
{
    let mut r: Vec<Cell> = Vec::new();
    let color = PanelColor::ThrowsText;
    assert(cell_views(r@) =~= Seq::<CellView>::empty());
    if row < d.throws.len() && row < d.eye_count as usize {
        let throw = &d.throws[row];
        assert(d@.throws[row as int] == throw@);
        let increments: i32 = if throw.has_correction_increments {
            throw.correction_increments
        } else if row + 1 == d.eye_count as usize {
            d.correction_increments_151
        } else {
            0
        };
        let shown = is_above(throw.error) || is_below(throw.error);
        push_cell(&mut r, plain_cell(known_or_dash(throw.has_position, t.x.as_str()), color));
        push_cell(&mut r, plain_cell(known_or_dash(throw.has_position, t.z.as_str()), color));
        push_cell(&mut r, subpixel_cell(t.angle.as_str(), increments, color));
        push_cell(&mut r, plain_cell(known_or_dash(shown, t.error.as_str()), color));
    } else {
        push_cell(&mut r, plain_cell(String::new(), color));
        push_cell(&mut r, plain_cell(String::new(), color));
        push_cell(&mut r, plain_cell(String::new(), color));
        push_cell(&mut r, plain_cell(String::new(), color));
    }
    assert(cell_views(r@) =~= throw_cells(d@, row as int, t.x@, t.z@, t.angle@, t.error@));
    r
}

/// A cell's prefix is always the beginning of its text, so that the width at
/// which the colors change is that of a part of the text.
pub proof fn law_prefix_begins_text(
    id: Seq<char>,
    cfg: OverlayConfig,
    d: DataView,
    row: int,
    t: RowTextsView,
    last_angle: Seq<char>,
    angle: Seq<char>,
    increments: i32,
)
    ensures
        prediction_cell(id, cfg, d, row, t, last_angle).prefix.is_prefix_of(
            prediction_cell(id, cfg, d, row, t, last_angle).text,
        ),
        subpixel_cell_of(angle, increments, PanelColor::Text).prefix.is_prefix_of(
            subpixel_cell_of(angle, increments, PanelColor::Text).text,
        ),
{
    lemma_coords_prefix(d.predictions[row].chunk_x as int, d.predictions[row].chunk_z as int);
    lemma_coords_prefix(
        d.predictions[row].chunk_x * 16 + 4,
        d.predictions[row].chunk_z * 16 + 4,
    );
    lemma_coords_prefix(d.predictions[row].chunk_x * 2, d.predictions[row].chunk_z * 2);
    assert(Seq::<char>::empty().is_prefix_of(t.certainty));
    let c = direction_cell_of(d.prediction_angles[row], t);
    assert(c.text.subrange(0, c.prefix.len() as int) =~= c.prefix);
    let s = subpixel_cell_of(angle, increments, PanelColor::Text);
    assert(s.text.subrange(0, s.prefix.len() as int) =~= s.prefix);
    let p = prediction_cell(id, cfg, d, row, t, last_angle);
    assert(p.prefix.len() == 0 ==> p.text.subrange(0, 0) =~= p.prefix);
}

proof fn lemma_coords_prefix(x: int, z: int)
    ensures
        coords_cell_of(x, z).prefix.is_prefix_of(coords_cell_of(x, z).text),
{
    let c = coords_cell_of(x, z);
    assert(c.text.subrange(0, c.prefix.len() as int) =~= c.prefix);
}

// ---------------------------------------------------------------------------
// Lines
// ---------------------------------------------------------------------------

/// A piece of a line with its color.
pub struct PanelRun {
    pub text: String,
    pub color: PanelColor,
}

pub open spec fn line_view(v: Seq<PanelRun>) -> Seq<(Seq<char>, PanelColor)> {
    v.map_values(|r: PanelRun| (r.text@, r.color))
}

pub open spec fn lines_view(v: Seq<Vec<PanelRun>>) -> Seq<Seq<(Seq<char>, PanelColor)>> {
    v.map_values(|l: Vec<PanelRun>| line_view(l@))
}

fn one_run(text: String, color: PanelColor) -> (r: Vec<PanelRun>)
    ensures
        line_view(r@) == seq![(text@, color)],
{
    let mut r: Vec<PanelRun> = Vec::new();
    r.push(PanelRun { text, color });
    assert(line_view(r@) =~= seq![(text@, color)]);
    r
}

fn two_runs(a: String, a_color: PanelColor, b: String, b_color: PanelColor) -> (r: Vec<PanelRun>)
    ensures
        line_view(r@) == seq![(a@, a_color), (b@, b_color)],
{
    let mut r: Vec<PanelRun> = Vec::new();
    r.push(PanelRun { text: a, color: a_color });
    r.push(PanelRun { text: b, color: b_color });
    assert(line_view(r@) =~= seq![(a@, a_color), (b@, b_color)]);
    r
}

fn push_line(out: &mut Vec<Vec<PanelRun>>, l: Vec<PanelRun>)
    ensures
        lines_view(final(out)@) == lines_view(old(out)@).push(line_view(l@)),
{
    out.push(l);
    assert(lines_view(out@) =~= lines_view(old(out)@).push(line_view(l@)));
}

/// The lines that tell that no stronghold fits.
pub fn failure_lines() -> (r: Vec<Vec<PanelRun>>)
    ensures
        lines_view(r@) == seq![
            seq![("Could not determine the stronghold chunk."@, PanelColor::Data)],
            seq![("You probably misread one of the eyes."@, PanelColor::Data)],
        ],
{
    let mut r: Vec<Vec<PanelRun>> = Vec::new();
    assert(lines_view(r@) =~= Seq::<Seq<(Seq<char>, PanelColor)>>::empty());
    push_line(
        &mut r,
        one_run("Could not determine the stronghold chunk.".to_owned(), PanelColor::Data),
    );
    push_line(
        &mut r,
        one_run("You probably misread one of the eyes.".to_owned(), PanelColor::Data),
    );
    assert(lines_view(r@) =~= seq![
        seq![("Could not determine the stronghold chunk."@, PanelColor::Data)],
        seq![("You probably misread one of the eyes."@, PanelColor::Data)],
    ]);
    r
}

/// The numbers of blind travel: rounded, and the chance in percent as a text.
pub struct BlindNumbers {
    pub x: i64,
    pub z: i64,
    pub chance: String,
    pub threshold: i64,
    pub direction: i64,
    pub distance: i64,
}

/// What is said of blind travel.
pub open spec fn blind_text(d: DataView, n: BlindNumbers) -> Seq<Seq<(Seq<char>, PanelColor)>> {
    if !has_blind(d) {
        Seq::empty()
    } else {
        seq![
            seq![
                (
                    "Blind coords ("@ + decimal(n.x as int) + ", "@ + decimal(n.z as int)
                        + ") are "@,
                    PanelColor::Data,
                ),
                (
                    blind_words(d.blind.evaluation),
                    PanelColor::Blind(blind_quarters(d.blind.evaluation) as u8),
                ),
            ],
            seq![
                (n.chance@, PanelColor::HighRoll(d.blind.highroll_probability)),
                (
                    " chance of <"@ + decimal(n.threshold as int) + " block blind"@,
                    PanelColor::Data,
                ),
            ],
        ] + (if d.blind.evaluation != "EXCELLENT"@ {
            seq![
                seq![
                    (
                        "Head "@ + decimal(n.direction as int) + "\u{00B0}, "@ + decimal(
                            n.distance as int,
                        ) + " blocks away, for better coords"@,
                        PanelColor::Data,
                    ),
                ],
            ]
        } else {
            Seq::empty()
        })
    }
}

/// The lines of blind travel; none where there is nothing to say.
pub fn build_blind_lines(d: &NinjabrainData, n: &BlindNumbers) -> (r: Vec<Vec<PanelRun>>)
    ensures
        lines_view(r@) == blind_text(d@, *n),
{
    let mut r: Vec<Vec<PanelRun>> = Vec::new();
    assert(lines_view(r@) =~= Seq::<Seq<(Seq<char>, PanelColor)>>::empty());
    if !(d.blind.enabled && d.blind.has_result) {
        return r;
    }
    let (quarters, words) = blind_evaluation(d.blind.evaluation.as_str());
    let mut place: String = "Blind coords (".to_owned();
    push_int(&mut place, n.x);
    place.append(", ");
    push_int(&mut place, n.z);
    place.append(") are ");
    push_line(
        &mut r,
        two_runs(place, PanelColor::Data, words.to_owned(), PanelColor::Blind(quarters)),
    );
    let mut rest: String = " chance of <".to_owned();
    push_int(&mut rest, n.threshold);
    rest.append(" block blind");
    push_line(
        &mut r,
        two_runs(
            n.chance.as_str().to_owned(),
            PanelColor::HighRoll(d.blind.highroll_probability),
            rest,
            PanelColor::Data,
        ),
    );
    if !same_text(d.blind.evaluation.as_str(), "EXCELLENT") {
        let mut better: String = "Head ".to_owned();
        push_int(&mut better, n.direction);
        better.append("\u{00B0}, ");
        push_int(&mut better, n.distance);
        better.append(" blocks away, for better coords");
        push_line(&mut r, one_run(better, PanelColor::Data));
    }
    assert(lines_view(r@) =~= blind_text(d@, *n));
    r
}

// ---------------------------------------------------------------------------
// Wrapping
// ---------------------------------------------------------------------------

/// The words of a text, each with the space behind it.
pub open spec fn words_of(s: Seq<char>) -> Seq<Seq<char>>
    decreases s.len(),
{
    if s.len() == 0 {
        Seq::empty()
    } else {
        match find_from(s, seq![' '], 0) {
            Some(i) => if 0 <= i < s.len() {
                seq![s.take(i + 1)] + words_of(s.skip(i + 1))
            } else {
                seq![s]
            },
            None => seq![s],
        }
    }
}

/// The words of a text, each with the space behind it.
pub fn run_words(text: &str) -> (r: Vec<String>)
    ensures
        texts(r@) == words_of(text@),
{
    let v = to_chars(text);
    let n: usize = v.len();
    let mut out: Vec<String> = Vec::new();
    let mut from: usize = 0;
    assert(text@.subrange(0, n as int) =~= text@);
    assert(texts(out@) =~= Seq::<Seq<char>>::empty());
    assert(texts(out@) + words_of(text@) =~= words_of(text@));
    while from < n
        invariant
            from <= n,
            n == v@.len(),
            v@ == text@,
            texts(out@) + words_of(text@.subrange(from as int, n as int)) == words_of(text@),
        decreases n - from,
    {
        let ghost rest = text@.subrange(from as int, n as int);
        let ghost before = texts(out@);
        proof {
            lemma_find_shift(text@, seq![' '], from as int, 0);
            lemma_find_from(rest, seq![' '], 0);
        }
        match find_char(&v, ' ', from) {
            Some(i) => {
                let word = from_range(&v, from, i + 1);
                push_text(&mut out, word);
                proof {
                    assert(rest.take(i - from + 1) =~= word@);
                    assert(rest.skip(i - from + 1) =~= text@.subrange(i + 1, n as int));
                    assert(before + (seq![word@] + words_of(text@.subrange(i + 1, n as int)))
                        =~= before.push(word@) + words_of(text@.subrange(i + 1, n as int)));
                }
                from = i + 1;
            },
            None => {
                let word = from_range(&v, from, n);
                push_text(&mut out, word);
                proof {
                    assert(before + seq![word@] =~= before.push(word@));
                    assert(text@.subrange(n as int, n as int).len() == 0);
                }
                from = n;
            },
        }
    }
    assert(texts(out@) + words_of(text@.subrange(n as int, n as int)) =~= texts(out@));
    out
}

/// A piece of a line; pieces of one color have one number.
pub struct WrapPiece {
    pub text: String,
    pub color: u32,
}

pub open spec fn piece_views(v: Seq<WrapPiece>) -> Seq<(Seq<char>, u32)> {
    v.map_values(|p: WrapPiece| (p.text@, p.color))
}

pub open spec fn wrap_views(v: Seq<Vec<WrapPiece>>) -> Seq<Seq<(Seq<char>, u32)>> {
    v.map_values(|l: Vec<WrapPiece>| piece_views(l@))
}

/// A line with a word behind it: it joins the last piece where that has its
/// color.
pub open spec fn with_word(line: Seq<(Seq<char>, u32)>, word: (Seq<char>, u32)) -> Seq<
    (Seq<char>, u32),
> {
    if line.len() > 0 && line.last().1 == word.1 {
        line.drop_last().push((line.last().0 + word.0, word.1))
    } else {
        line.push(word)
    }
}

/// The first `n` words in lines: each word goes to the last line, or to a new
/// one where it breaks.
pub open spec fn wrapped(words: Seq<(Seq<char>, u32)>, breaks: Seq<bool>, n: int) -> Seq<
    Seq<(Seq<char>, u32)>,
>
    decreases n,
{
    if n <= 0 {
        seq![Seq::empty()]
    } else {
        let before = wrapped(words, breaks, n - 1);
        let lines = if breaks[n - 1] {
            before.push(Seq::empty())
        } else {
            before
        };
        lines.drop_last().push(with_word(lines.last(), words[n - 1]))
    }
}

fn add_word(line: &mut Vec<WrapPiece>, text: &str, color: u32)
    ensures
        piece_views(final(line)@) == with_word(piece_views(old(line)@), (text@, color)),
{
    let ghost before = piece_views(line@);
    let n: usize = line.len();
    if n > 0 && line[n - 1].color == color {
        assert(before.last() == (line@[n - 1].text@, color));
        match line.pop() {
            Some(p) => {
                let mut joined: String = p.text;
                joined.append(text);
                line.push(WrapPiece { text: joined, color });
                assert(piece_views(line@) =~= before.drop_last().push((joined@, color)));
            },
            None => {},
        }
    } else {
        assert(n > 0 ==> before.last() == (line@[n - 1].text@, line@[n - 1].color));
        line.push(WrapPiece { text: text.to_owned(), color });
        assert(piece_views(line@) =~= before.push((text@, color)));
    }
}

/// Puts words into lines. `breaks` tells for each word whether it would make its
/// line too wide.
pub fn wrap_runs(words: &Vec<WrapPiece>, breaks: &Vec<bool>) -> (r: Vec<Vec<WrapPiece>>)
    requires
        breaks@.len() == words@.len(),
    ensures
        wrap_views(r@) == wrapped(piece_views(words@), breaks@, words@.len() as int),
{
    let mut lines: Vec<Vec<WrapPiece>> = Vec::new();
    lines.push(Vec::new());
    assert(piece_views(lines@[0]@) =~= Seq::<(Seq<char>, u32)>::empty());
    assert(wrap_views(lines@) =~= wrapped(piece_views(words@), breaks@, 0));
    let mut i: usize = 0;
    while i < words.len()
        invariant
            i <= words@.len(),
            breaks@.len() == words@.len(),
            lines@.len() > 0,
            wrap_views(lines@) == wrapped(piece_views(words@), breaks@, i as int),
        decreases words.len() - i,
    {
        let ghost start = wrap_views(lines@);
        if breaks[i] {
            lines.push(Vec::new());
            assert(piece_views(lines@.last()@) =~= Seq::<(Seq<char>, u32)>::empty());
            assert(wrap_views(lines@) =~= start.push(Seq::empty()));
        }
        let ghost open = wrap_views(lines@);
        match lines.pop() {
            Some(last) => {
                let mut line = last;
                assert(open.last() == piece_views(line@));
                add_word(&mut line, words[i].text.as_str(), words[i].color);
                lines.push(line);
                assert(piece_views(words@)[i as int] == (words@[i as int].text@, words@[i as int].color));
                assert(wrap_views(lines@) =~= open.drop_last().push(piece_views(line@)));
            },
            None => {},
        }
        i += 1;
    }
    lines
}

/// The text of a line.
pub open spec fn line_text(line: Seq<(Seq<char>, u32)>) -> Seq<char>
    decreases line.len(),
{
    if line.len() == 0 {
        Seq::empty()
    } else {
        line_text(line.drop_last()) + line.last().0
    }
}

/// The text of lines.
pub open spec fn lines_text(lines: Seq<Seq<(Seq<char>, u32)>>) -> Seq<char>
    decreases lines.len(),
{
    if lines.len() == 0 {
        Seq::empty()
    } else {
        lines_text(lines.drop_last()) + line_text(lines.last())
    }
}

/// Wrapping loses nothing: the lines together are the words together.
pub proof fn law_wrap_keeps_text(words: Seq<(Seq<char>, u32)>, breaks: Seq<bool>, n: int)
    requires
        0 <= n <= words.len(),
        breaks.len() == words.len(),
    ensures
        lines_text(wrapped(words, breaks, n)) == line_text(words.take(n)),
        wrapped(words, breaks, n).len() > 0,
    decreases n,
{
    if n == 0 {
        let w = wrapped(words, breaks, 0);
        assert(w.drop_last() =~= Seq::<Seq<(Seq<char>, u32)>>::empty());
        assert(w.last() =~= Seq::<(Seq<char>, u32)>::empty());
        assert(words.take(0) =~= Seq::<(Seq<char>, u32)>::empty());
        assert(lines_text(w.drop_last()) =~= Seq::<char>::empty());
        assert(line_text(w.last()) =~= Seq::<char>::empty());
        assert(lines_text(w) =~= Seq::<char>::empty());
    } else {
        law_wrap_keeps_text(words, breaks, n - 1);
        let before = wrapped(words, breaks, n - 1);
        let lines = if breaks[n - 1] {
            before.push(Seq::empty())
        } else {
            before
        };
        if breaks[n - 1] {
            assert(lines.drop_last() =~= before);
            assert(lines_text(lines) =~= lines_text(before));
        }
        let word = words[n - 1];
        let last = with_word(lines.last(), word);
        lemma_with_word(lines.last(), word);
        let w = wrapped(words, breaks, n);
        assert(w.drop_last() =~= lines.drop_last());
        assert(w.last() == last);
        assert(words.take(n).drop_last() =~= words.take(n - 1));
        assert(words.take(n).last() == word);
        assert(lines_text(w) =~= lines_text(lines) + word.0);
    }
}

proof fn lemma_with_word(line: Seq<(Seq<char>, u32)>, word: (Seq<char>, u32))
    ensures
        line_text(with_word(line, word)) == line_text(line) + word.0,
{
    let w = with_word(line, word);
    if line.len() > 0 && line.last().1 == word.1 {
        assert(w.drop_last() =~= line.drop_last());
        assert(line_text(line.drop_last()) + (line.last().0 + word.0) =~= line_text(line) + word.0);
    } else {
        assert(w.drop_last() =~= line);
    }
}

/// The words of a text together are the text.
pub proof fn law_words_are_the_text(s: Seq<char>)
    ensures
        words_of(s).fold_left(Seq::<char>::empty(), |a: Seq<char>, b: Seq<char>| a + b) == s,
{
    lemma_words_from(Seq::empty(), s);
    assert(Seq::<char>::empty() + s =~= s);
}

proof fn lemma_words_from(a: Seq<char>, s: Seq<char>)
    ensures
        words_of(s).fold_left(a, |x: Seq<char>, y: Seq<char>| x + y) == a + s,
    decreases s.len(),
{
    let f = |x: Seq<char>, y: Seq<char>| x + y;
    let w = words_of(s);
    lemma_find_from(s, seq![' '], 0);
    if s.len() == 0 {
        assert(w.fold_left(a, f) == a);
        assert(a + s =~= a);
    } else {
        match find_from(s, seq![' '], 0) {
            Some(i) => {
                let rest = words_of(s.skip(i + 1));
                lemma_words_from(a + s.take(i + 1), s.skip(i + 1));
                lemma_fold_first(s.take(i + 1), rest, a);
                assert(a + s.take(i + 1) + s.skip(i + 1) =~= a + s);
            },
            None => {
                lemma_fold_first(s, Seq::empty(), a);
                assert(w =~= seq![s] + Seq::<Seq<char>>::empty());
            },
        }
    }
}

proof fn lemma_fold_first(first: Seq<char>, rest: Seq<Seq<char>>, a: Seq<char>)
    ensures
        (seq![first] + rest).fold_left(a, |x: Seq<char>, y: Seq<char>| x + y) == rest.fold_left(
            a + first,
            |x: Seq<char>, y: Seq<char>| x + y,
        ),
    decreases rest.len(),
{
    let f = |x: Seq<char>, y: Seq<char>| x + y;
    let all = seq![first] + rest;
    if rest.len() == 0 {
        assert(all.drop_last() =~= Seq::<Seq<char>>::empty());
        assert(all.last() == first);
        assert(all.drop_last().fold_left(a, f) == a);
    } else {
        lemma_fold_first(first, rest.drop_last(), a);
        assert(all.drop_last() =~= seq![first] + rest.drop_last());
        assert(all.last() == rest.last());
    }
}

/// Where a cell's text changes its color: behind the first characters that are
/// as wide as the prefix. `reached` tells for each character whether those in
/// front of it are.
pub open spec fn split_index(reached: Seq<bool>, i: int) -> int
    decreases reached.len() - i,
{
    if 0 <= i < reached.len() && !reached[i] {
        split_index(reached, i + 1)
    } else {
        i
    }
}

pub fn split_cell(text: &str, reached: &Vec<bool>) -> (r: (String, String))
    requires
        reached@.len() == text@.len(),
    ensures
        r.0@ == text@.take(split_index(reached@, 0)),
        r.1@ == text@.skip(split_index(reached@, 0)),
{
    let v = to_chars(text);
    let n: usize = v.len();
    let mut i: usize = 0;
    while i < n && !reached[i]
        invariant
            i <= n,
            n == v@.len(),
            reached@.len() == n,
            split_index(reached@, 0) == split_index(reached@, i as int),
        decreases n - i,
    {
        i += 1;
    }
    let a = from_range(&v, 0, i);
    let b = from_range(&v, i, n);
    assert(a@ =~= text@.take(i as int));
    assert(b@ =~= text@.skip(i as int));
    (a, b)
}

// ---------------------------------------------------------------------------
// Outlines
// ---------------------------------------------------------------------------

/// The points of a ring, each once, without the middle.
pub open spec fn ring_points(samples: Seq<(i32, i32)>, n: int) -> Seq<(i32, i32)>
    decreases n,
{
    if n <= 0 {
        Seq::empty()
    } else {
        let rest = ring_points(samples, n - 1);
        let p = samples[n - 1];
        if p == (0i32, 0i32) || rest.contains(p) {
            rest
        } else {
            rest.push(p)
        }
    }
}

/// The eight neighbors of a pixel.
pub open spec fn neighbors() -> Seq<(i32, i32)> {
    seq![
        ((-1) as i32, (-1) as i32),
        (0i32, (-1) as i32),
        (1i32, (-1) as i32),
        ((-1) as i32, 0i32),
        (1i32, 0i32),
        ((-1) as i32, 1i32),
        (0i32, 1i32),
        (1i32, 1i32),
    ]
}

/// How far copies of a text are moved to draw its outline.
pub open spec fn outline_of(r: i32, samples: Seq<(i32, i32)>) -> Seq<(i32, i32)> {
    if r <= 0 {
        Seq::empty()
    } else if r == 1 {
        neighbors()
    } else {
        ring_points(samples, samples.len() as int)
    }
}

fn holds_point(v: &Vec<(i32, i32)>, p: (i32, i32)) -> (r: bool)
    ensures
        r == v@.contains(p),
{
    let mut i: usize = 0;
    while i < v.len()
        invariant
            i <= v@.len(),
            forall|k: int| 0 <= k < i ==> #[trigger] v@[k] != p,
        decreases v.len() - i,
    {
        if v[i].0 == p.0 && v[i].1 == p.1 {
            assert(v@[i as int] == p);
            return true;
        }
        i += 1;
    }
    false
}

/// How many points of a circle are taken for an outline.
pub fn outline_samples(r: i32) -> (n: i32)
    requires
        r <= i32::MAX / 8,
    ensures
        n == if r > 1 {
            8 * r
        } else {
            8
        },
{
    if r > 1 {
        8 * r
    } else {
        8
    }
}

/// How far copies of a text are moved to draw its outline of width `r`. `samples`
/// are points of a circle of that radius, rounded; they count from two on.
pub fn outline_offsets(r: i32, samples: &Vec<(i32, i32)>) -> (out: Vec<(i32, i32)>)
    ensures
        out@ == outline_of(r, samples@),
{
    let mut out: Vec<(i32, i32)> = Vec::new();
    if r <= 0 {
        return out;
    }
    if r == 1 {
        out.push((-1, -1));
        out.push((0, -1));
        out.push((1, -1));
        out.push((-1, 0));
        out.push((1, 0));
        out.push((-1, 1));
        out.push((0, 1));
        out.push((1, 1));
        assert(out@ =~= neighbors());
        return out;
    }
    let mut i: usize = 0;
    while i < samples.len()
        invariant
            i <= samples@.len(),
            out@ == ring_points(samples@, i as int),
        decreases samples.len() - i,
    {
        let p = samples[i];
        if !(p.0 == 0 && p.1 == 0) && !holds_point(&out, p) {
            out.push(p);
        }
        i += 1;
    }
    out
}

/// No copy is made twice, and none lies on the text itself.
pub proof fn law_outline_points_differ(r: i32, samples: Seq<(i32, i32)>)
    ensures
        outline_of(r, samples).no_duplicates(),
        !outline_of(r, samples).contains((0i32, 0i32)),
{
    lemma_ring_points(samples, samples.len() as int);
}

proof fn lemma_ring_points(samples: Seq<(i32, i32)>, n: int)
    requires
        n <= samples.len(),
    ensures
        ring_points(samples, n).no_duplicates(),
        !ring_points(samples, n).contains((0i32, 0i32)),
    decreases n,
{
    if n > 0 {
        lemma_ring_points(samples, n - 1);
        let rest = ring_points(samples, n - 1);
        let p = samples[n - 1];
        assert forall|k: int| 0 <= k < rest.len() implies #[trigger] rest[k] != (0i32, 0i32) by {
            assert(rest.contains(rest[k]));
        }
    }
}

// ---------------------------------------------------------------------------
// What the drawing depends on
// ---------------------------------------------------------------------------

/// A value that the drawing depends on.
#[derive(Debug, PartialEq)]
pub enum KeyPart {
    Count(usize),
    Text(String),
    Number(i64),
    Bits(u64),
    Flag(bool),
}

/// What a part stands for.
pub enum PartView {
    Count(nat),
    Text(Seq<char>),
    Number(i64),
    Bits(u64),
    Flag(bool),
}

pub open spec fn part_view(p: KeyPart) -> PartView {
    match p {
        KeyPart::Count(n) => PartView::Count(n as nat),
        KeyPart::Text(t) => PartView::Text(t@),
        KeyPart::Number(n) => PartView::Number(n),
        KeyPart::Bits(b) => PartView::Bits(b),
        KeyPart::Flag(f) => PartView::Flag(f),
    }
}

pub open spec fn part_views(v: Seq<KeyPart>) -> Seq<PartView> {
    v.map_values(|p: KeyPart| part_view(p))
}

pub open spec fn prediction_parts(v: Seq<NbbPrediction>, n: int) -> Seq<PartView>
    decreases n,
{
    if n <= 0 {
        Seq::empty()
    } else {
        prediction_parts(v, n - 1) + seq![
            PartView::Number(v[n - 1].chunk_x as i64),
            PartView::Number(v[n - 1].chunk_z as i64),
            PartView::Bits(v[n - 1].certainty),
            PartView::Bits(v[n - 1].overworld_distance),
        ]
    }
}

pub open spec fn angle_parts(v: Seq<NbbPredictionAngle>, n: int) -> Seq<PartView>
    decreases n,
{
    if n <= 0 {
        Seq::empty()
    } else {
        angle_parts(v, n - 1) + seq![
            PartView::Bits(v[n - 1].needed_correction),
            PartView::Bits(v[n - 1].actual_angle),
            PartView::Flag(v[n - 1].valid),
        ]
    }
}

pub open spec fn throw_parts(v: Seq<ThrowView>, n: int) -> Seq<PartView>
    decreases n,
{
    if n <= 0 {
        Seq::empty()
    } else {
        throw_parts(v, n - 1) + seq![
            PartView::Bits(v[n - 1].angle),
            PartView::Bits(v[n - 1].correction),
            PartView::Bits(v[n - 1].error),
            PartView::Bits(v[n - 1].angle_without_correction),
            PartView::Bits(v[n - 1].x_in_overworld),
            PartView::Bits(v[n - 1].z_in_overworld),
            PartView::Flag(v[n - 1].has_position),
            PartView::Number(v[n - 1].correction_increments as i64),
            PartView::Flag(v[n - 1].has_correction_increments),
        ]
    }
}

pub open spec fn message_parts(v: Seq<InfoView>, n: int) -> Seq<PartView>
    decreases n,
{
    if n <= 0 {
        Seq::empty()
    } else {
        message_parts(v, n - 1) + seq![
            PartView::Text(v[n - 1].severity),
            PartView::Text(v[n - 1].msg_type),
            PartView::Text(v[n - 1].message),
        ]
    }
}

/// The settings, the size of the screen, the lengths of the lists and the single
/// values above the predictions.
pub open spec fn head_parts(settings: Seq<char>, d: DataView, sw: u32, sh: u32) -> Seq<PartView> {
    seq![
        PartView::Text(settings),
        PartView::Number(sw as i64),
        PartView::Number(sh as i64),
        PartView::Count(d.predictions.len()),
        PartView::Count(d.prediction_angles.len()),
        PartView::Count(d.throws.len()),
        PartView::Count(d.information_messages.len()),
        PartView::Text(d.result_type),
        PartView::Number(d.prediction_count as i64),
        PartView::Number(d.eye_count as i64),
        PartView::Flag(d.valid_prediction),
        PartView::Flag(d.player_in_nether),
        PartView::Number(d.correction_increments_151 as i64),
        PartView::Text(d.boat_state),
    ]
}

/// Blind travel and the angle of the last throw.
pub open spec fn tail_parts(d: DataView) -> Seq<PartView> {
    seq![
        PartView::Flag(d.blind.enabled),
        PartView::Flag(d.blind.has_result),
        PartView::Text(d.blind.evaluation),
        PartView::Bits(d.blind.x_in_nether),
        PartView::Bits(d.blind.z_in_nether),
        PartView::Bits(d.blind.improve_direction),
        PartView::Bits(d.blind.improve_distance),
        PartView::Bits(d.blind.highroll_probability),
        PartView::Bits(d.blind.highroll_threshold),
        PartView::Bits(d.last_angle),
        PartView::Bits(d.last_angle_without_correction),
    ]
}

/// The settings, the size of the screen and the data that the drawing depends
/// on, in a fixed order.
pub open spec fn state_of(settings: Seq<char>, d: DataView, sw: u32, sh: u32) -> Seq<PartView> {
    head_parts(settings, d, sw, sh) + prediction_parts(d.predictions, d.predictions.len() as int)
        + angle_parts(d.prediction_angles, d.prediction_angles.len() as int) + throw_parts(
        d.throws,
        d.throws.len() as int,
    ) + message_parts(d.information_messages, d.information_messages.len() as int) + tail_parts(d)
}

fn push_part(out: &mut Vec<KeyPart>, p: KeyPart)
    ensures
        part_views(final(out)@) == part_views(old(out)@).push(part_view(p)),
{
    out.push(p);
    assert(part_views(out@) =~= part_views(old(out)@).push(part_view(p)));
}

fn push_three_parts(out: &mut Vec<KeyPart>, p: KeyPart, q: KeyPart, s: KeyPart)
    ensures
        part_views(final(out)@) == part_views(old(out)@) + seq![
            part_view(p),
            part_view(q),
            part_view(s),
        ],
{
    push_part(out, p);
    push_part(out, q);
    push_part(out, s);
    assert(part_views(out@) =~= part_views(old(out)@) + seq![
        part_view(p),
        part_view(q),
        part_view(s),
    ]);
}

fn push_prediction_parts(out: &mut Vec<KeyPart>, d: &NinjabrainData)
    ensures
        part_views(final(out)@) == part_views(old(out)@) + prediction_parts(
            d@.predictions,
            d@.predictions.len() as int,
        ),
{
    let ghost before = part_views(out@);
    let mut i: usize = 0;
    assert(before + prediction_parts(d@.predictions, 0) =~= before);
    while i < d.predictions.len()
        invariant
            i <= d@.predictions.len(),
            d@.predictions == d.predictions@,
            part_views(out@) == before + prediction_parts(d@.predictions, i as int),
        decreases d.predictions.len() - i,
    {
        let p = d.predictions[i];
        push_part(out, KeyPart::Number(p.chunk_x as i64));
        push_part(out, KeyPart::Number(p.chunk_z as i64));
        push_part(out, KeyPart::Bits(p.certainty));
        push_part(out, KeyPart::Bits(p.overworld_distance));
        i += 1;
        assert(part_views(out@) =~= before + prediction_parts(d@.predictions, i as int));
    }
}

fn push_angle_parts(out: &mut Vec<KeyPart>, d: &NinjabrainData)
    ensures
        part_views(final(out)@) == part_views(old(out)@) + angle_parts(
            d@.prediction_angles,
            d@.prediction_angles.len() as int,
        ),
{
    let ghost before = part_views(out@);
    let mut i: usize = 0;
    assert(before + angle_parts(d@.prediction_angles, 0) =~= before);
    while i < d.prediction_angles.len()
        invariant
            i <= d@.prediction_angles.len(),
            d@.prediction_angles == d.prediction_angles@,
            part_views(out@) == before + angle_parts(d@.prediction_angles, i as int),
        decreases d.prediction_angles.len() - i,
    {
        let a = d.prediction_angles[i];
        push_part(out, KeyPart::Bits(a.needed_correction));
        push_part(out, KeyPart::Bits(a.actual_angle));
        push_part(out, KeyPart::Flag(a.valid));
        i += 1;
        assert(part_views(out@) =~= before + angle_parts(d@.prediction_angles, i as int));
    }
}

fn push_throw_parts(out: &mut Vec<KeyPart>, d: &NinjabrainData)
    ensures
        part_views(final(out)@) == part_views(old(out)@) + throw_parts(
            d@.throws,
            d@.throws.len() as int,
        ),
{
    let ghost before = part_views(out@);
    let mut i: usize = 0;
    assert(before + throw_parts(d@.throws, 0) =~= before);
    while i < d.throws.len()
        invariant
            i <= d.throws@.len(),
            d@.throws.len() == d.throws@.len(),
            part_views(out@) == before + throw_parts(d@.throws, i as int),
        decreases d.throws.len() - i,
    {
        let t = &d.throws[i];
        assert(d@.throws[i as int] == t@);
        push_three_parts(
            out,
            KeyPart::Bits(t.angle),
            KeyPart::Bits(t.correction),
            KeyPart::Bits(t.error),
        );
        push_three_parts(
            out,
            KeyPart::Bits(t.angle_without_correction),
            KeyPart::Bits(t.x_in_overworld),
            KeyPart::Bits(t.z_in_overworld),
        );
        push_three_parts(
            out,
            KeyPart::Flag(t.has_position),
            KeyPart::Number(t.correction_increments as i64),
            KeyPart::Flag(t.has_correction_increments),
        );
        i += 1;
        assert(part_views(out@) =~= before + throw_parts(d@.throws, i as int));
    }
}

fn push_message_parts(out: &mut Vec<KeyPart>, d: &NinjabrainData)
    ensures
        part_views(final(out)@) == part_views(old(out)@) + message_parts(
            d@.information_messages,
            d@.information_messages.len() as int,
        ),
{
    let ghost before = part_views(out@);
    let mut i: usize = 0;
    assert(before + message_parts(d@.information_messages, 0) =~= before);
    while i < d.information_messages.len()
        invariant
            i <= d.information_messages@.len(),
            d@.information_messages.len() == d.information_messages@.len(),
            part_views(out@) == before + message_parts(d@.information_messages, i as int),
        decreases d.information_messages.len() - i,
    {
        let m = &d.information_messages[i];
        assert(d@.information_messages[i as int] == m@);
        push_part(out, KeyPart::Text(m.severity.as_str().to_owned()));
        push_part(out, KeyPart::Text(m.msg_type.as_str().to_owned()));
        push_part(out, KeyPart::Text(m.message.as_str().to_owned()));
        i += 1;
        assert(part_views(out@) =~= before + message_parts(d@.information_messages, i as int));
    }
}

fn push_head_parts(out: &mut Vec<KeyPart>, settings: &str, d: &NinjabrainData, sw: u32, sh: u32)
    ensures
        part_views(final(out)@) == part_views(old(out)@) + head_parts(settings@, d@, sw, sh),
{
    push_three_parts(
        out,
        KeyPart::Text(settings.to_owned()),
        KeyPart::Number(sw as i64),
        KeyPart::Number(sh as i64),
    );
    push_three_parts(
        out,
        KeyPart::Count(d.predictions.len()),
        KeyPart::Count(d.prediction_angles.len()),
        KeyPart::Count(d.throws.len()),
    );
    push_three_parts(
        out,
        KeyPart::Count(d.information_messages.len()),
        KeyPart::Text(d.result_type.as_str().to_owned()),
        KeyPart::Number(d.prediction_count as i64),
    );
    push_three_parts(
        out,
        KeyPart::Number(d.eye_count as i64),
        KeyPart::Flag(d.valid_prediction),
        KeyPart::Flag(d.player_in_nether),
    );
    push_part(out, KeyPart::Number(d.correction_increments_151 as i64));
    push_part(out, KeyPart::Text(d.boat_state.as_str().to_owned()));
    assert(part_views(out@) =~= part_views(old(out)@) + head_parts(settings@, d@, sw, sh));
}

fn push_tail_parts(out: &mut Vec<KeyPart>, d: &NinjabrainData)
    ensures
        part_views(final(out)@) == part_views(old(out)@) + tail_parts(d@),
{
    push_three_parts(
        out,
        KeyPart::Flag(d.blind.enabled),
        KeyPart::Flag(d.blind.has_result),
        KeyPart::Text(d.blind.evaluation.as_str().to_owned()),
    );
    push_three_parts(
        out,
        KeyPart::Bits(d.blind.x_in_nether),
        KeyPart::Bits(d.blind.z_in_nether),
        KeyPart::Bits(d.blind.improve_direction),
    );
    push_three_parts(
        out,
        KeyPart::Bits(d.blind.improve_distance),
        KeyPart::Bits(d.blind.highroll_probability),
        KeyPart::Bits(d.blind.highroll_threshold),
    );
    push_part(out, KeyPart::Bits(d.last_angle));
    push_part(out, KeyPart::Bits(d.last_angle_without_correction));
    assert(part_views(out@) =~= part_views(old(out)@) + tail_parts(d@));
}

/// What the drawing depends on, to tell whether it has to be done again.
/// `settings` are all the settings of the panel as one text.
pub fn state_parts(settings: &str, d: &NinjabrainData, sw: u32, sh: u32) -> (r: Vec<KeyPart>)
    ensures
        part_views(r@) == state_of(settings@, d@, sw, sh),
{
    let mut out: Vec<KeyPart> = Vec::new();
    let ghost before = part_views(out@);
    push_head_parts(&mut out, settings, d, sw, sh);
    assert(before + head_parts(settings@, d@, sw, sh) =~= head_parts(settings@, d@, sw, sh));
    push_prediction_parts(&mut out, d);
    push_angle_parts(&mut out, d);
    push_throw_parts(&mut out, d);
    push_message_parts(&mut out, d);
    push_tail_parts(&mut out, d);
    out
}

/// That new data came does not by itself cause a new drawing: data that is the
/// same but for its time has the same parts.
pub proof fn law_time_does_not_redraw(
    settings: Seq<char>,
    d: DataView,
    sw: u32,
    sh: u32,
    time: Option<u64>,
)
    ensures
        state_of(settings, DataView { last_update: time, ..d }, sw, sh) == state_of(
            settings,
            d,
            sw,
            sh,
        ),
{
}

/// Two throws that are drawn alike.
pub open spec fn same_throw(a: ThrowView, b: ThrowView) -> bool {
    &&& a.x_in_overworld == b.x_in_overworld
    &&& a.z_in_overworld == b.z_in_overworld
    &&& a.has_position == b.has_position
    &&& a.angle_without_correction == b.angle_without_correction
    &&& a.error == b.error
    &&& a.correction_increments == b.correction_increments
    &&& a.has_correction_increments == b.has_correction_increments
}

/// Two lists of throws that are drawn alike.
pub open spec fn same_throws(a: Seq<ThrowView>, b: Seq<ThrowView>) -> bool {
    &&& a.len() == b.len()
    &&& forall|i: int| 0 <= i < a.len() ==> #[trigger] same_throw(a[i], b[i])
}

/// Two reports on blind travel that are drawn alike.
pub open spec fn same_blind(a: BlindView, b: BlindView) -> bool {
    &&& a.enabled == b.enabled
    &&& a.has_result == b.has_result
    &&& a.evaluation == b.evaluation
    &&& a.x_in_nether == b.x_in_nether
    &&& a.z_in_nether == b.z_in_nether
    &&& a.improve_direction == b.improve_direction
    &&& a.improve_distance == b.improve_distance
    &&& a.highroll_probability == b.highroll_probability
    &&& a.highroll_threshold == b.highroll_threshold
}

/// Data that is drawn alike: it agrees on everything that the panel shows.
pub open spec fn same_drawing(a: DataView, b: DataView) -> bool {
    &&& a.result_type == b.result_type
    &&& a.valid_prediction == b.valid_prediction
    &&& a.prediction_count == b.prediction_count
    &&& a.predictions == b.predictions
    &&& a.prediction_angles == b.prediction_angles
    &&& a.player_in_nether == b.player_in_nether
    &&& a.eye_count == b.eye_count
    &&& same_throws(a.throws, b.throws)
    &&& a.correction_increments_151 == b.correction_increments_151
    &&& a.last_angle == b.last_angle
    &&& a.last_angle_without_correction == b.last_angle_without_correction
    &&& a.information_messages == b.information_messages
    &&& same_blind(a.blind, b.blind)
    &&& a.boat_state == b.boat_state
}

/// Whatever changes of the settings, the screen or the data that is shown
/// changes the parts, so that the panel is drawn anew.
pub proof fn law_changes_are_drawn(
    s1: Seq<char>,
    d1: DataView,
    w1: u32,
    h1: u32,
    s2: Seq<char>,
    d2: DataView,
    w2: u32,
    h2: u32,
)
    requires
        state_of(s1, d1, w1, h1) == state_of(s2, d2, w2, h2),
    ensures
        s1 == s2,
        w1 == w2,
        h1 == h2,
        same_drawing(d1, d2),
{
    let (a0, b0) = (head_parts(s1, d1, w1, h1), head_parts(s2, d2, w2, h2));
    let (a1, b1) = (
        prediction_parts(d1.predictions, d1.predictions.len() as int),
        prediction_parts(d2.predictions, d2.predictions.len() as int),
    );
    let (a2, b2) = (
        angle_parts(d1.prediction_angles, d1.prediction_angles.len() as int),
        angle_parts(d2.prediction_angles, d2.prediction_angles.len() as int),
    );
    let (a3, b3) = (
        throw_parts(d1.throws, d1.throws.len() as int),
        throw_parts(d2.throws, d2.throws.len() as int),
    );
    let (a4, b4) = (
        message_parts(d1.information_messages, d1.information_messages.len() as int),
        message_parts(d2.information_messages, d2.information_messages.len() as int),
    );
    let (a5, b5) = (tail_parts(d1), tail_parts(d2));
    assert(a0 + (a1 + a2 + a3 + a4 + a5) =~= state_of(s1, d1, w1, h1));
    assert(b0 + (b1 + b2 + b3 + b4 + b5) =~= state_of(s2, d2, w2, h2));
    lemma_same_pieces(a0, a1 + a2 + a3 + a4 + a5, b0, b1 + b2 + b3 + b4 + b5);
    lemma_same_head(s1, d1, w1, h1, s2, d2, w2, h2);
    lemma_prediction_parts(d1.predictions, d2.predictions, d1.predictions.len() as int);
    lemma_angle_parts(
        d1.prediction_angles,
        d2.prediction_angles,
        d1.prediction_angles.len() as int,
    );
    lemma_throw_parts(d1.throws, d2.throws, d1.throws.len() as int);
    lemma_message_parts(
        d1.information_messages,
        d2.information_messages,
        d1.information_messages.len() as int,
    );
    lemma_same_pieces(a1 + a2 + a3 + a4, a5, b1 + b2 + b3 + b4, b5);
    lemma_same_pieces(a1 + a2 + a3, a4, b1 + b2 + b3, b4);
    lemma_same_pieces(a1 + a2, a3, b1 + b2, b3);
    lemma_same_pieces(a1, a2, b1, b2);
    lemma_same_tail(d1, d2);
    assert(d1.predictions =~= d2.predictions);
    assert(d1.prediction_angles =~= d2.prediction_angles);
    assert(d1.information_messages =~= d2.information_messages);
}

proof fn lemma_same_pieces(a: Seq<PartView>, b: Seq<PartView>, c: Seq<PartView>, d: Seq<PartView>)
    requires
        a.len() == c.len(),
        a + b == c + d,
    ensures
        a == c,
        b == d,
{
    let whole = a + b;
    assert(whole.take(a.len() as int) =~= a);
    assert(whole.skip(a.len() as int) =~= b);
    assert((c + d).take(a.len() as int) =~= c);
    assert((c + d).skip(a.len() as int) =~= d);
}

proof fn lemma_same_head(
    s1: Seq<char>,
    d1: DataView,
    w1: u32,
    h1: u32,
    s2: Seq<char>,
    d2: DataView,
    w2: u32,
    h2: u32,
)
    requires
        head_parts(s1, d1, w1, h1) == head_parts(s2, d2, w2, h2),
    ensures
        s1 == s2,
        w1 == w2,
        h1 == h2,
        d1.predictions.len() == d2.predictions.len(),
        d1.prediction_angles.len() == d2.prediction_angles.len(),
        d1.throws.len() == d2.throws.len(),
        d1.information_messages.len() == d2.information_messages.len(),
        d1.result_type == d2.result_type,
        d1.prediction_count == d2.prediction_count,
        d1.eye_count == d2.eye_count,
        d1.valid_prediction == d2.valid_prediction,
        d1.player_in_nether == d2.player_in_nether,
        d1.correction_increments_151 == d2.correction_increments_151,
        d1.boat_state == d2.boat_state,
{
    let a = head_parts(s1, d1, w1, h1);
    let b = head_parts(s2, d2, w2, h2);
    assert(a[0] == b[0] && a[1] == b[1] && a[2] == b[2] && a[3] == b[3] && a[4] == b[4]);
    assert(a[5] == b[5] && a[6] == b[6] && a[7] == b[7] && a[8] == b[8] && a[9] == b[9]);
    assert(a[10] == b[10] && a[11] == b[11] && a[12] == b[12] && a[13] == b[13]);
}

proof fn lemma_same_tail(d1: DataView, d2: DataView)
    requires
        tail_parts(d1) == tail_parts(d2),
    ensures
        same_blind(d1.blind, d2.blind),
        d1.last_angle == d2.last_angle,
        d1.last_angle_without_correction == d2.last_angle_without_correction,
{
    let a = tail_parts(d1);
    let b = tail_parts(d2);
    assert(a[0] == b[0] && a[1] == b[1] && a[2] == b[2] && a[3] == b[3] && a[4] == b[4]);
    assert(a[5] == b[5] && a[6] == b[6] && a[7] == b[7] && a[8] == b[8] && a[9] == b[9]);
    assert(a[10] == b[10]);
}

proof fn lemma_prediction_parts(a: Seq<NbbPrediction>, b: Seq<NbbPrediction>, n: int)
    requires
        0 <= n,
    ensures
        prediction_parts(a, n).len() == 4 * n,
        prediction_parts(b, n).len() == 4 * n,
        prediction_parts(a, n) == prediction_parts(b, n) ==> forall|i: int|
            0 <= i < n ==> #[trigger] a[i] == b[i],
    decreases n,
{
    if n > 0 {
        lemma_prediction_parts(a, b, n - 1);
        let (x, y) = (prediction_parts(a, n), prediction_parts(b, n));
        if x == y {
            let (p, q) = (prediction_parts(a, n - 1), prediction_parts(b, n - 1));
            let (s, u) = (x.skip(4 * (n - 1)), y.skip(4 * (n - 1)));
            assert(x =~= p + s);
            assert(y =~= q + u);
            lemma_same_pieces(p, s, q, u);
            assert(s[0] == u[0] && s[1] == u[1] && s[2] == u[2] && s[3] == u[3]);
        }
    }
}

proof fn lemma_angle_parts(a: Seq<NbbPredictionAngle>, b: Seq<NbbPredictionAngle>, n: int)
    requires
        0 <= n,
    ensures
        angle_parts(a, n).len() == 3 * n,
        angle_parts(b, n).len() == 3 * n,
        angle_parts(a, n) == angle_parts(b, n) ==> forall|i: int|
            0 <= i < n ==> #[trigger] a[i] == b[i],
    decreases n,
{
    if n > 0 {
        lemma_angle_parts(a, b, n - 1);
        let (x, y) = (angle_parts(a, n), angle_parts(b, n));
        if x == y {
            let (p, q) = (angle_parts(a, n - 1), angle_parts(b, n - 1));
            let (s, u) = (x.skip(3 * (n - 1)), y.skip(3 * (n - 1)));
            assert(x =~= p + s);
            assert(y =~= q + u);
            lemma_same_pieces(p, s, q, u);
            assert(s[0] == u[0] && s[1] == u[1] && s[2] == u[2]);
        }
    }
}

proof fn lemma_throw_parts(a: Seq<ThrowView>, b: Seq<ThrowView>, n: int)
    requires
        0 <= n,
    ensures
        throw_parts(a, n).len() == 9 * n,
        throw_parts(b, n).len() == 9 * n,
        throw_parts(a, n) == throw_parts(b, n) ==> forall|i: int|
            0 <= i < n ==> #[trigger] same_throw(a[i], b[i]),
    decreases n,
{
    if n > 0 {
        lemma_throw_parts(a, b, n - 1);
        let (x, y) = (throw_parts(a, n), throw_parts(b, n));
        if x == y {
            let (p, q) = (throw_parts(a, n - 1), throw_parts(b, n - 1));
            let (s, u) = (x.skip(9 * (n - 1)), y.skip(9 * (n - 1)));
            assert(x =~= p + s);
            assert(y =~= q + u);
            lemma_same_pieces(p, s, q, u);
            assert(s[0] == u[0] && s[1] == u[1] && s[2] == u[2] && s[3] == u[3] && s[4] == u[4]);
            assert(s[5] == u[5] && s[6] == u[6] && s[7] == u[7] && s[8] == u[8]);
            assert(same_throw(a[n - 1], b[n - 1]));
        }
    }
}

proof fn lemma_message_parts(a: Seq<InfoView>, b: Seq<InfoView>, n: int)
    requires
        0 <= n,
    ensures
        message_parts(a, n).len() == 3 * n,
        message_parts(b, n).len() == 3 * n,
        message_parts(a, n) == message_parts(b, n) ==> forall|i: int|
            0 <= i < n ==> #[trigger] a[i] == b[i],
    decreases n,
{
    if n > 0 {
        lemma_message_parts(a, b, n - 1);
        let (x, y) = (message_parts(a, n), message_parts(b, n));
        if x == y {
            let (p, q) = (message_parts(a, n - 1), message_parts(b, n - 1));
            let (s, u) = (x.skip(3 * (n - 1)), y.skip(3 * (n - 1)));
            assert(x =~= p + s);
            assert(y =~= q + u);
            lemma_same_pieces(p, s, q, u);
            assert(s[0] == u[0] && s[1] == u[1] && s[2] == u[2]);
        }
    }
}

fn same_part(a: &KeyPart, b: &KeyPart) -> (r: bool)
    ensures
        r == (part_view(*a) == part_view(*b)),
{
    match (a, b) {
        (KeyPart::Count(x), KeyPart::Count(y)) => *x == *y,
        (KeyPart::Text(x), KeyPart::Text(y)) => same_text(x.as_str(), y.as_str()),
        (KeyPart::Number(x), KeyPart::Number(y)) => *x == *y,
        (KeyPart::Bits(x), KeyPart::Bits(y)) => *x == *y,
        (KeyPart::Flag(x), KeyPart::Flag(y)) => *x == *y,
        _ => false,
    }
}

fn same_parts(a: &Vec<KeyPart>, b: &Vec<KeyPart>) -> (r: bool)
    ensures
        r == (part_views(a@) == part_views(b@)),
{
    assert(part_views(a@).len() == a@.len() && part_views(b@).len() == b@.len());
    if a.len() != b.len() {
        return false;
    }
    let mut i: usize = 0;
    while i < a.len()
        invariant
            i <= a@.len(),
            a@.len() == b@.len(),
            forall|k: int| 0 <= k < i ==> part_view(#[trigger] a@[k]) == part_view(b@[k]),
        decreases a.len() - i,
    {
        if !same_part(&a[i], &b[i]) {
            assert(part_views(a@)[i as int] != part_views(b@)[i as int]);
            return false;
        }
        i += 1;
    }
    assert(part_views(a@) =~= part_views(b@));
    true
}

/// The picture of the panel that is kept, with the parts that it was drawn for.
pub struct PanelCache<P> {
    pub kept: Option<(Vec<KeyPart>, P)>,
}

impl<P> View for PanelCache<P> {
    type V = Option<(Seq<PartView>, P)>;

    open spec fn view(&self) -> Option<(Seq<PartView>, P)> {
        match self.kept {
            Some((parts, picture)) => Some((part_views(parts@), picture)),
            None => None,
        }
    }
}

/// Nothing is kept, or it was drawn for other parts.
pub open spec fn redraw_needed<P>(c: Option<(Seq<PartView>, P)>, parts: Seq<PartView>) -> bool {
    match c {
        Some((kept, _)) => kept != parts,
        None => true,
    }
}

/// What a frame asks for.
pub enum PanelStep {
    /// The panel is hidden.
    Hide,
    /// Draw it, and keep the picture with these parts.
    Draw(Vec<KeyPart>),
    /// Show the picture that is kept.
    Keep,
}

impl<P> PanelCache<P> {
    pub fn new() -> (r: PanelCache<P>)
        ensures
            r@ is None,
    {
        PanelCache { kept: None }
    }

    /// Forgets the drawing of a hidden panel.
    pub fn forget(&mut self)
        ensures
            final(self)@ is None,
    {
        self.kept = None;
    }

    /// Whether the panel has to be drawn again.
    pub fn needs_redraw(&self, parts: &Vec<KeyPart>) -> (r: bool)
        ensures
            r == redraw_needed(self@, part_views(parts@)),
    {
        match &self.kept {
            Some((kept, _)) => !same_parts(kept, parts),
            None => true,
        }
    }

    /// What to do in a frame. A hidden panel is forgotten.
    pub fn step(
        &mut self,
        shown: bool,
        settings: &str,
        d: &NinjabrainData,
        sw: u32,
        sh: u32,
    ) -> (r: PanelStep)
        ensures
            ({
                let parts = state_of(settings@, d@, sw, sh);
                if !shown {
                    r is Hide && final(self)@ is None
                } else if redraw_needed(old(self)@, parts) {
                    &&& r matches PanelStep::Draw(p) && part_views(p@) == parts
                    &&& final(self)@ == old(self)@
                } else {
                    r is Keep && final(self)@ == old(self)@
                }
            }),
    {
        if !shown {
            self.forget();
            return PanelStep::Hide;
        }
        let parts = state_parts(settings, d, sw, sh);
        if self.needs_redraw(&parts) {
            PanelStep::Draw(parts)
        } else {
            PanelStep::Keep
        }
    }

    /// Keeps what was drawn.
    pub fn drew(&mut self, parts: Vec<KeyPart>, picture: P)
        ensures
            final(self)@ == Some((part_views(parts@), picture)),
    {
        self.kept = Some((parts, picture));
    }

    /// The picture that is kept.
    pub fn picture(&self) -> (r: Option<&P>)
        ensures
            match self@ {
                Some((_, picture)) => r matches Some(q) && *q == picture,
                None => r is None,
            },
    {
        match &self.kept {
            Some((_, picture)) => Some(picture),
            None => None,
        }
    }
}

/// A panel that was drawn is drawn again as soon as the settings, the screen or
/// anything that is shown differs from what it was drawn for.
pub proof fn law_changed_panel_is_redrawn<P>(
    picture: P,
    s1: Seq<char>,
    d1: DataView,
    w1: u32,
    h1: u32,
    s2: Seq<char>,
    d2: DataView,
    w2: u32,
    h2: u32,
)
    requires
        !(s1 == s2 && w1 == w2 && h1 == h2 && same_drawing(d1, d2)),
    ensures
        redraw_needed(Some((state_of(s1, d1, w1, h1), picture)), state_of(s2, d2, w2, h2)),
{
    if state_of(s1, d1, w1, h1) == state_of(s2, d2, w2, h2) {
        law_changes_are_drawn(s1, d1, w1, h1, s2, d2, w2, h2);
    }
}

/// What a frame brings to the panel. `drawable` says that a font is there to
/// draw it with.
pub struct PanelFrame {
    pub shown: bool,
    pub drawable: bool,
    pub settings: Seq<char>,
    pub data: DataView,
    pub sw: u32,
    pub sh: u32,
}

/// The parts of a frame.
pub open spec fn frame_parts(f: PanelFrame) -> Seq<PartView> {
    state_of(f.settings, f.data, f.sw, f.sh)
}

/// What is kept after a frame, where `draw` draws: nothing of a hidden panel,
/// and a new picture where one is needed and can be drawn.
pub open spec fn kept_after<P>(
    c: Option<(Seq<PartView>, P)>,
    f: PanelFrame,
    draw: spec_fn(Seq<char>, DataView, u32, u32) -> P,
) -> Option<(Seq<PartView>, P)> {
    if !f.shown {
        None
    } else if redraw_needed(c, frame_parts(f)) && f.drawable {
        Some((frame_parts(f), draw(f.settings, f.data, f.sw, f.sh)))
    } else {
        c
    }
}

/// What is kept after frames from a new cache on.
pub open spec fn kept_after_all<P>(
    frames: Seq<PanelFrame>,
    draw: spec_fn(Seq<char>, DataView, u32, u32) -> P,
) -> Option<(Seq<PartView>, P)>
    decreases frames.len(),
{
    if frames.len() == 0 {
        None
    } else {
        kept_after(kept_after_all(frames.drop_last(), draw), frames.last(), draw)
    }
}

/// What a frame shows: the picture that is kept after it, unless the panel is
/// hidden or could not be drawn.
pub open spec fn shown_after<P>(
    c: Option<(Seq<PartView>, P)>,
    f: PanelFrame,
    draw: spec_fn(Seq<char>, DataView, u32, u32) -> P,
) -> Option<P> {
    if !f.shown || (redraw_needed(c, frame_parts(f)) && !f.drawable) {
        None
    } else {
        match kept_after(c, f, draw) {
            Some((_, picture)) => Some(picture),
            None => None,
        }
    }
}

/// `picture` was drawn for the frame's settings and screen, from data that is
/// drawn like the frame's.
pub open spec fn drawn_like<P>(
    picture: P,
    f: PanelFrame,
    draw: spec_fn(Seq<char>, DataView, u32, u32) -> P,
) -> bool {
    exists|d: DataView| #[trigger]
        same_drawing(d, f.data) && picture == draw(f.settings, d, f.sw, f.sh)
}

/// After any frames, a frame of a panel that is shown and can be drawn shows a
/// picture, and whatever picture a frame shows is the one of its own settings,
/// data and screen.
pub proof fn law_shown_panel_is_current<P>(
    frames: Seq<PanelFrame>,
    f: PanelFrame,
    draw: spec_fn(Seq<char>, DataView, u32, u32) -> P,
)
    ensures
        ({
            let shown = shown_after(kept_after_all(frames, draw), f, draw);
            &&& f.shown && f.drawable ==> shown is Some
            &&& !f.shown ==> shown is None
            &&& shown matches Some(picture) ==> drawn_like(picture, f, draw)
            &&& (forall|s: Seq<char>, a: DataView, b: DataView, w: u32, h: u32|
                same_drawing(a, b) ==> #[trigger] draw(s, a, w, h) == #[trigger] draw(s, b, w, h))
                ==> (shown matches Some(picture) ==> picture == draw(
                f.settings,
                f.data,
                f.sw,
                f.sh,
            ))
        }),
{
    let c = kept_after_all(frames, draw);
    if let Some((parts, picture)) = c {
        let g = lemma_kept_picture(frames, draw);
        if parts == frame_parts(f) {
            law_changes_are_drawn(
                g.settings,
                g.data,
                g.sw,
                g.sh,
                f.settings,
                f.data,
                f.sw,
                f.sh,
            );
            assert(same_drawing(g.data, f.data));
        }
    }
    assert(same_drawing(f.data, f.data));
}

/// The frame that a kept picture was drawn in.
proof fn lemma_kept_picture<P>(
    frames: Seq<PanelFrame>,
    draw: spec_fn(Seq<char>, DataView, u32, u32) -> P,
) -> (g: PanelFrame)
    requires
        kept_after_all(frames, draw) is Some,
    ensures
        kept_after_all(frames, draw) == Some(
            (frame_parts(g), draw(g.settings, g.data, g.sw, g.sh)),
        ),
    decreases frames.len(),
{
    let c = kept_after_all(frames.drop_last(), draw);
    let f = frames.last();
    if redraw_needed(c, frame_parts(f)) && f.drawable {
        f
    } else {
        lemma_kept_picture(frames.drop_last(), draw)
    }
}

/// Data that agrees on what is shown has the same sections, rows, cells, lines
/// and icons, whatever else it holds.
pub proof fn law_same_drawing_looks_the_same(
    cfg: OverlayConfig,
    a: DataView,
    b: DataView,
    id: Seq<char>,
    rows: int,
    t: Seq<RowTextsView>,
    last_angle: Seq<char>,
    last_plain: Seq<char>,
    row: int,
    x: Seq<char>,
    z: Seq<char>,
    angle: Seq<char>,
    error: Seq<char>,
    n: BlindNumbers,
)
    requires
        same_drawing(a, b),
        counts_ok(a),
        0 <= row,
    ensures
        sections_of(cfg, a) == sections_of(cfg, b),
        base_rows(cfg, a) == base_rows(cfg, b),
        data_rows(cfg, a) == data_rows(cfg, b),
        throw_rows(cfg, a) == throw_rows(cfg, b),
        boat_icon_of(cfg, a) == boat_icon_of(cfg, b),
        column_cells(id, cfg, a, rows, t, last_angle, last_plain) == column_cells(
            id,
            cfg,
            b,
            rows,
            t,
            last_angle,
            last_plain,
        ),
        throw_cells(a, row, x, z, angle, error) == throw_cells(b, row, x, z, angle, error),
        blind_text(a, n) == blind_text(b, n),
        a.information_messages == b.information_messages,
{
    lemma_same_cells(id, cfg, a, b, t, last_angle, rows);
    if a.eye_count > 0 {
        assert(same_throw(a.throws[a.eye_count - 1], b.throws[a.eye_count - 1]));
    }
    if row < a.throws.len() {
        assert(same_throw(a.throws[row], b.throws[row]));
    }
}

proof fn lemma_same_cells(
    id: Seq<char>,
    cfg: OverlayConfig,
    a: DataView,
    b: DataView,
    t: Seq<RowTextsView>,
    last_angle: Seq<char>,
    n: int,
)
    requires
        same_drawing(a, b),
    ensures
        prediction_cells(id, cfg, a, t, last_angle, n) == prediction_cells(
            id,
            cfg,
            b,
            t,
            last_angle,
            n,
        ),
    decreases n,
{
    if n > 0 {
        lemma_same_cells(id, cfg, a, b, t, last_angle, n - 1);
    }
}

// ---------------------------------------------------------------------------
// The flow of the panel
// ---------------------------------------------------------------------------

/// A length of the panel's layout.
#[derive(Clone, Copy, Debug, PartialEq, Eq, Structural)]
pub enum Length {
    PaddingTop,
    PaddingBottom,
    MessagesTop,
    /// The height of a message: of its text or of its icon.
    MessageRow(usize),
    MessageGap,
    Pixel,
    MessagesBottom,
    ResultsTop,
    HeaderBand,
    ResultsBody,
    ResultsBottom,
    FailureTop,
    TextLine,
    FailureGap,
    FailureBottom,
    BlindTop,
    BlindGap,
    BlindBottom,
    ThrowsTop,
    ThrowsHeaderBand,
    DetailRow,
    ThrowsBottom,
}

/// Something that is drawn at the place that the flow has reached.
#[derive(Clone, Copy, Debug, PartialEq, Eq, Structural)]
pub enum PanelItem {
    Message(usize),
    MessageRule,
    /// The band above the results with the names of the columns and the boat.
    ResultsHeader,
    HeaderRule,
    /// The line below a row of the results that is not the last.
    RowDivider(usize),
    ResultsRow(usize),
    FailureLine(usize),
    BlindLine(usize),
    ThrowsHeader,
    ThrowsColumns,
    ThrowsRow(usize),
}

/// A step of the flow.
#[derive(Clone, Copy, Debug, PartialEq, Eq, Structural)]
pub enum FlowStep {
    Advance(Length),
    Draw(PanelItem),
}

/// How many of each thing the panel holds.
#[derive(Clone, Copy, Debug, PartialEq, Eq, Structural)]
pub struct PanelCounts {
    pub messages: usize,
    pub result_rows: usize,
    pub failure_lines: usize,
    pub blind_lines: usize,
    pub throw_rows: usize,
}

/// The first `k` of `n` messages, with a line between two of them.
pub open spec fn message_steps(n: int, k: int) -> Seq<FlowStep>
    decreases k,
{
    if k <= 0 {
        Seq::empty()
    } else {
        let one = message_steps(n, k - 1).push(
            FlowStep::Draw(PanelItem::Message((k - 1) as usize)),
        ).push(FlowStep::Advance(Length::MessageRow((k - 1) as usize)));
        if k < n {
            one.push(FlowStep::Advance(Length::MessageGap)).push(
                FlowStep::Draw(PanelItem::MessageRule),
            ).push(FlowStep::Advance(Length::Pixel))
        } else {
            one
        }
    }
}

/// The first `k` of `n` rows of the results.
pub open spec fn row_steps(n: int, k: int) -> Seq<FlowStep>
    decreases k,
{
    if k <= 0 {
        Seq::empty()
    } else {
        let before = row_steps(n, k - 1);
        (if k < n {
            before.push(FlowStep::Draw(PanelItem::RowDivider((k - 1) as usize)))
        } else {
            before
        }).push(FlowStep::Draw(PanelItem::ResultsRow((k - 1) as usize)))
    }
}

/// The first `k` of `n` lines of a text, with a gap between two of them.
pub open spec fn line_steps(item: spec_fn(usize) -> PanelItem, gap: Length, n: int, k: int) -> Seq<
    FlowStep,
>
    decreases k,
{
    if k <= 0 {
        Seq::empty()
    } else {
        let one = line_steps(item, gap, n, k - 1).push(
            FlowStep::Draw(item((k - 1) as usize)),
        ).push(FlowStep::Advance(Length::TextLine));
        if k < n {
            one.push(FlowStep::Advance(gap))
        } else {
            one
        }
    }
}

/// The first `k` rows of the throws.
pub open spec fn throw_steps(k: int) -> Seq<FlowStep>
    decreases k,
{
    if k <= 0 {
        Seq::empty()
    } else {
        throw_steps(k - 1).push(FlowStep::Draw(PanelItem::ThrowsRow((k - 1) as usize))).push(
            FlowStep::Advance(Length::DetailRow),
        )
    }
}

pub open spec fn failure_item() -> spec_fn(usize) -> PanelItem {
    |i: usize| PanelItem::FailureLine(i)
}

pub open spec fn blind_item() -> spec_fn(usize) -> PanelItem {
    |i: usize| PanelItem::BlindLine(i)
}

/// The steps of a section.
pub open spec fn section_steps(s: Section, c: PanelCounts) -> Seq<FlowStep> {
    match s {
        Section::Messages => seq![FlowStep::Advance(Length::MessagesTop)] + message_steps(
            c.messages as int,
            c.messages as int,
        ) + seq![FlowStep::Advance(Length::MessagesBottom)],
        Section::Results => seq![
            FlowStep::Advance(Length::ResultsTop),
            FlowStep::Draw(PanelItem::ResultsHeader),
            FlowStep::Advance(Length::HeaderBand),
            FlowStep::Draw(PanelItem::HeaderRule),
        ] + row_steps(c.result_rows as int, c.result_rows as int) + seq![
            FlowStep::Advance(Length::ResultsBody),
            FlowStep::Advance(Length::ResultsBottom),
        ],
        Section::Failure => seq![FlowStep::Advance(Length::FailureTop)] + line_steps(
            failure_item(),
            Length::FailureGap,
            c.failure_lines as int,
            c.failure_lines as int,
        ) + seq![FlowStep::Advance(Length::FailureBottom)],
        Section::Blind => seq![FlowStep::Advance(Length::BlindTop)] + line_steps(
            blind_item(),
            Length::BlindGap,
            c.blind_lines as int,
            c.blind_lines as int,
        ) + seq![FlowStep::Advance(Length::BlindBottom)],
        Section::Throws => seq![
            FlowStep::Advance(Length::ThrowsTop),
            FlowStep::Draw(PanelItem::ThrowsHeader),
            FlowStep::Advance(Length::ThrowsHeaderBand),
            FlowStep::Draw(PanelItem::ThrowsColumns),
            FlowStep::Advance(Length::DetailRow),
        ] + throw_steps(c.throw_rows as int) + seq![FlowStep::Advance(Length::ThrowsBottom)],
    }
}

/// The steps of the first `k` sections, behind the padding at the top.
pub open spec fn flow_of(v: Seq<Section>, c: PanelCounts, k: int) -> Seq<FlowStep>
    decreases k,
{
    if k <= 0 {
        seq![FlowStep::Advance(Length::PaddingTop)]
    } else {
        flow_of(v, c, k - 1) + section_steps(v[k - 1], c)
    }
}

fn push_messages(out: &mut Vec<FlowStep>, n: usize)
    ensures
        final(out)@ == old(out)@ + message_steps(n as int, n as int),
{
    let ghost before = out@;
    let mut i: usize = 0;
    assert(before + message_steps(n as int, 0) =~= before);
    while i < n
        invariant
            i <= n,
            out@ == before + message_steps(n as int, i as int),
        decreases n - i,
    {
        out.push(FlowStep::Draw(PanelItem::Message(i)));
        out.push(FlowStep::Advance(Length::MessageRow(i)));
        if i + 1 < n {
            out.push(FlowStep::Advance(Length::MessageGap));
            out.push(FlowStep::Draw(PanelItem::MessageRule));
            out.push(FlowStep::Advance(Length::Pixel));
        }
        i += 1;
        assert(out@ =~= before + message_steps(n as int, i as int));
    }
}

fn push_rows(out: &mut Vec<FlowStep>, n: usize)
    ensures
        final(out)@ == old(out)@ + row_steps(n as int, n as int),
{
    let ghost before = out@;
    let mut i: usize = 0;
    assert(before + row_steps(n as int, 0) =~= before);
    while i < n
        invariant
            i <= n,
            out@ == before + row_steps(n as int, i as int),
        decreases n - i,
    {
        if i + 1 < n {
            out.push(FlowStep::Draw(PanelItem::RowDivider(i)));
        }
        out.push(FlowStep::Draw(PanelItem::ResultsRow(i)));
        i += 1;
        assert(out@ =~= before + row_steps(n as int, i as int));
    }
}

fn push_failure(out: &mut Vec<FlowStep>, n: usize)
    ensures
        final(out)@ == old(out)@ + line_steps(
            failure_item(),
            Length::FailureGap,
            n as int,
            n as int,
        ),
{
    let ghost before = out@;
    let mut i: usize = 0;
    assert(before + line_steps(failure_item(), Length::FailureGap, n as int, 0) =~= before);
    while i < n
        invariant
            i <= n,
            out@ == before + line_steps(failure_item(), Length::FailureGap, n as int, i as int),
        decreases n - i,
    {
        out.push(FlowStep::Draw(PanelItem::FailureLine(i)));
        out.push(FlowStep::Advance(Length::TextLine));
        if i + 1 < n {
            out.push(FlowStep::Advance(Length::FailureGap));
        }
        i += 1;
        assert(out@ =~= before + line_steps(
            failure_item(),
            Length::FailureGap,
            n as int,
            i as int,
        ));
    }
}

fn push_blind(out: &mut Vec<FlowStep>, n: usize)
    ensures
        final(out)@ == old(out)@ + line_steps(blind_item(), Length::BlindGap, n as int, n as int),
{
    let ghost before = out@;
    let mut i: usize = 0;
    assert(before + line_steps(blind_item(), Length::BlindGap, n as int, 0) =~= before);
    while i < n
        invariant
            i <= n,
            out@ == before + line_steps(blind_item(), Length::BlindGap, n as int, i as int),
        decreases n - i,
    {
        out.push(FlowStep::Draw(PanelItem::BlindLine(i)));
        out.push(FlowStep::Advance(Length::TextLine));
        if i + 1 < n {
            out.push(FlowStep::Advance(Length::BlindGap));
        }
        i += 1;
        assert(out@ =~= before + line_steps(
            blind_item(),
            Length::BlindGap,
            n as int,
            i as int,
        ));
    }
}

fn push_throws(out: &mut Vec<FlowStep>, n: usize)
    ensures
        final(out)@ == old(out)@ + throw_steps(n as int),
{
    let ghost before = out@;
    let mut i: usize = 0;
    assert(before + throw_steps(0) =~= before);
    while i < n
        invariant
            i <= n,
            out@ == before + throw_steps(i as int),
        decreases n - i,
    {
        out.push(FlowStep::Draw(PanelItem::ThrowsRow(i)));
        out.push(FlowStep::Advance(Length::DetailRow));
        i += 1;
        assert(out@ =~= before + throw_steps(i as int));
    }
}

fn push_section(out: &mut Vec<FlowStep>, s: Section, c: PanelCounts)
    ensures
        final(out)@ == old(out)@ + section_steps(s, c),
{
    let ghost before = out@;
    match s {
        Section::Messages => {
            out.push(FlowStep::Advance(Length::MessagesTop));
            push_messages(out, c.messages);
            out.push(FlowStep::Advance(Length::MessagesBottom));
        },
        Section::Results => {
            out.push(FlowStep::Advance(Length::ResultsTop));
            out.push(FlowStep::Draw(PanelItem::ResultsHeader));
            out.push(FlowStep::Advance(Length::HeaderBand));
            out.push(FlowStep::Draw(PanelItem::HeaderRule));
            push_rows(out, c.result_rows);
            out.push(FlowStep::Advance(Length::ResultsBody));
            out.push(FlowStep::Advance(Length::ResultsBottom));
        },
        Section::Failure => {
            out.push(FlowStep::Advance(Length::FailureTop));
            push_failure(out, c.failure_lines);
            out.push(FlowStep::Advance(Length::FailureBottom));
        },
        Section::Blind => {
            out.push(FlowStep::Advance(Length::BlindTop));
            push_blind(out, c.blind_lines);
            out.push(FlowStep::Advance(Length::BlindBottom));
        },
        Section::Throws => {
            out.push(FlowStep::Advance(Length::ThrowsTop));
            out.push(FlowStep::Draw(PanelItem::ThrowsHeader));
            out.push(FlowStep::Advance(Length::ThrowsHeaderBand));
            out.push(FlowStep::Draw(PanelItem::ThrowsColumns));
            out.push(FlowStep::Advance(Length::DetailRow));
            push_throws(out, c.throw_rows);
            out.push(FlowStep::Advance(Length::ThrowsBottom));
        },
    }
    assert(out@ =~= before + section_steps(s, c));
}

/// The steps that draw the panel from top to bottom.
pub fn panel_flow(sections: &Vec<Section>, c: PanelCounts) -> (r: Vec<FlowStep>)
    ensures
        r@ == flow_of(sections@, c, sections@.len() as int),
{
    let mut out: Vec<FlowStep> = Vec::new();
    out.push(FlowStep::Advance(Length::PaddingTop));
    assert(out@ =~= flow_of(sections@, c, 0));
    let mut i: usize = 0;
    while i < sections.len()
        invariant
            i <= sections@.len(),
            out@ == flow_of(sections@, c, i as int),
        decreases sections.len() - i,
    {
        push_section(&mut out, sections[i], c);
        i += 1;
    }
    out
}

/// A length so many times.
pub type Term = (Length, usize);

/// One less, but not below none.
pub open spec fn gaps(n: usize) -> usize {
    if n > 0 {
        (n - 1) as usize
    } else {
        0
    }
}

/// The heights of the first `k` of `n` messages.
pub open spec fn message_terms(n: int, k: int) -> Seq<Term>
    decreases k,
{
    if k <= 0 {
        Seq::empty()
    } else {
        let one = message_terms(n, k - 1).push((Length::MessageRow((k - 1) as usize), 1usize));
        if k < n {
            one.push((Length::MessageGap, 1usize)).push((Length::Pixel, 1usize))
        } else {
            one
        }
    }
}

/// The height that is kept for a section.
pub open spec fn section_terms(s: Section, c: PanelCounts) -> Seq<Term> {
    match s {
        Section::Messages => seq![(Length::MessagesTop, 1usize)] + message_terms(
            c.messages as int,
            c.messages as int,
        ) + seq![(Length::MessagesBottom, 1usize)],
        Section::Results => seq![
            (Length::ResultsTop, 1usize),
            (Length::HeaderBand, 1usize),
            (Length::ResultsBody, 1usize),
            (Length::ResultsBottom, 1usize),
        ],
        Section::Failure => seq![
            (Length::FailureTop, 1usize),
            (Length::TextLine, c.failure_lines),
            (Length::FailureGap, gaps(c.failure_lines)),
            (Length::FailureBottom, 1usize),
        ],
        Section::Blind => seq![
            (Length::BlindTop, 1usize),
            (Length::TextLine, c.blind_lines),
            (Length::BlindGap, gaps(c.blind_lines)),
            (Length::BlindBottom, 1usize),
        ],
        Section::Throws => seq![
            (Length::ThrowsTop, 1usize),
            (Length::ThrowsHeaderBand, 1usize),
            (Length::DetailRow, c.throw_rows),
            (Length::ThrowsBottom, 1usize),
        ],
    }
}

fn push_message_terms(out: &mut Vec<(Length, usize)>, n: usize)
    ensures
        final(out)@ == old(out)@ + message_terms(n as int, n as int),
{
    let ghost before = out@;
    let mut i: usize = 0;
    assert(before + message_terms(n as int, 0) =~= before);
    while i < n
        invariant
            i <= n,
            out@ == before + message_terms(n as int, i as int),
        decreases n - i,
    {
        out.push((Length::MessageRow(i), 1));
        if i + 1 < n {
            out.push((Length::MessageGap, 1));
            out.push((Length::Pixel, 1));
        }
        i += 1;
        assert(out@ =~= before + message_terms(n as int, i as int));
    }
}

/// The lengths that add up to the height of a section.
pub fn section_height(s: Section, c: PanelCounts) -> (r: Vec<(Length, usize)>)
    ensures
        r@ == section_terms(s, c),
{
    let mut out: Vec<(Length, usize)> = Vec::new();
    match s {
        Section::Messages => {
            out.push((Length::MessagesTop, 1));
            push_message_terms(&mut out, c.messages);
            out.push((Length::MessagesBottom, 1));
        },
        Section::Results => {
            out.push((Length::ResultsTop, 1));
            out.push((Length::HeaderBand, 1));
            out.push((Length::ResultsBody, 1));
            out.push((Length::ResultsBottom, 1));
        },
        Section::Failure => {
            out.push((Length::FailureTop, 1));
            out.push((Length::TextLine, c.failure_lines));
            out.push((Length::FailureGap, c.failure_lines.saturating_sub(1)));
            out.push((Length::FailureBottom, 1));
        },
        Section::Blind => {
            out.push((Length::BlindTop, 1));
            out.push((Length::TextLine, c.blind_lines));
            out.push((Length::BlindGap, c.blind_lines.saturating_sub(1)));
            out.push((Length::BlindBottom, 1));
        },
        Section::Throws => {
            out.push((Length::ThrowsTop, 1));
            out.push((Length::ThrowsHeaderBand, 1));
            out.push((Length::DetailRow, c.throw_rows));
            out.push((Length::ThrowsBottom, 1));
        },
    }
    assert(out@ =~= section_terms(s, c));
    out
}

/// How far steps lead, where each length has a value.
pub open spec fn way(v: Seq<FlowStep>, value: spec_fn(Length) -> int) -> int
    decreases v.len(),
{
    if v.len() == 0 {
        0
    } else {
        way(v.drop_last(), value) + match v.last() {
            FlowStep::Advance(l) => value(l),
            FlowStep::Draw(_) => 0,
        }
    }
}

/// The sum of lengths.
pub open spec fn height(v: Seq<Term>, value: spec_fn(Length) -> int) -> int
    decreases v.len(),
{
    if v.len() == 0 {
        0
    } else {
        height(v.drop_last(), value) + value(v.last().0) * v.last().1
    }
}

proof fn lemma_way_push(v: Seq<FlowStep>, s: FlowStep, value: spec_fn(Length) -> int)
    ensures
        way(v.push(s), value) == way(v, value) + match s {
            FlowStep::Advance(l) => value(l),
            FlowStep::Draw(_) => 0,
        },
{
    assert(v.push(s).drop_last() =~= v);
}

proof fn lemma_way_add(a: Seq<FlowStep>, b: Seq<FlowStep>, value: spec_fn(Length) -> int)
    ensures
        way(a + b, value) == way(a, value) + way(b, value),
    decreases b.len(),
{
    if b.len() == 0 {
        assert(a + b =~= a);
    } else {
        lemma_way_add(a, b.drop_last(), value);
        assert((a + b).drop_last() =~= a + b.drop_last());
        assert((a + b).last() == b.last());
    }
}

proof fn lemma_height_push(v: Seq<Term>, t: Term, value: spec_fn(Length) -> int)
    ensures
        height(v.push(t), value) == height(v, value) + value(t.0) * t.1,
{
    assert(v.push(t).drop_last() =~= v);
}

proof fn lemma_height_add(a: Seq<Term>, b: Seq<Term>, value: spec_fn(Length) -> int)
    ensures
        height(a + b, value) == height(a, value) + height(b, value),
    decreases b.len(),
{
    if b.len() == 0 {
        assert(a + b =~= a);
    } else {
        lemma_height_add(a, b.drop_last(), value);
        assert((a + b).drop_last() =~= a + b.drop_last());
        assert((a + b).last() == b.last());
    }
}

proof fn lemma_messages(n: int, k: int, value: spec_fn(Length) -> int)
    ensures
        way(message_steps(n, k), value) == height(message_terms(n, k), value),
    decreases k,
{
    if k > 0 {
        lemma_messages(n, k - 1, value);
        let s0 = message_steps(n, k - 1);
        let s1 = s0.push(FlowStep::Draw(PanelItem::Message((k - 1) as usize)));
        let s2 = s1.push(FlowStep::Advance(Length::MessageRow((k - 1) as usize)));
        lemma_way_push(s0, FlowStep::Draw(PanelItem::Message((k - 1) as usize)), value);
        lemma_way_push(s1, FlowStep::Advance(Length::MessageRow((k - 1) as usize)), value);
        let t0 = message_terms(n, k - 1);
        let t1 = t0.push((Length::MessageRow((k - 1) as usize), 1usize));
        lemma_height_push(t0, (Length::MessageRow((k - 1) as usize), 1usize), value);
        if k < n {
            let s3 = s2.push(FlowStep::Advance(Length::MessageGap));
            let s4 = s3.push(FlowStep::Draw(PanelItem::MessageRule));
            lemma_way_push(s2, FlowStep::Advance(Length::MessageGap), value);
            lemma_way_push(s3, FlowStep::Draw(PanelItem::MessageRule), value);
            lemma_way_push(s4, FlowStep::Advance(Length::Pixel), value);
            let t2 = t1.push((Length::MessageGap, 1usize));
            lemma_height_push(t1, (Length::MessageGap, 1usize), value);
            lemma_height_push(t2, (Length::Pixel, 1usize), value);
        }
    }
}

proof fn lemma_rows(n: int, k: int, value: spec_fn(Length) -> int)
    ensures
        way(row_steps(n, k), value) == 0,
    decreases k,
{
    if k > 0 {
        lemma_rows(n, k - 1, value);
        let s0 = row_steps(n, k - 1);
        let s1 = if k < n {
            s0.push(FlowStep::Draw(PanelItem::RowDivider((k - 1) as usize)))
        } else {
            s0
        };
        lemma_way_push(s0, FlowStep::Draw(PanelItem::RowDivider((k - 1) as usize)), value);
        lemma_way_push(s1, FlowStep::Draw(PanelItem::ResultsRow((k - 1) as usize)), value);
    }
}

proof fn lemma_lines(
    item: spec_fn(usize) -> PanelItem,
    gap: Length,
    n: int,
    k: int,
    value: spec_fn(Length) -> int,
)
    requires
        0 <= k <= n,
    ensures
        way(line_steps(item, gap, n, k), value) == value(Length::TextLine) * k + value(gap) * (if k
            < n {
            k
        } else if n > 0 {
            n - 1
        } else {
            0
        }),
    decreases k,
{
    if k > 0 {
        lemma_lines(item, gap, n, k - 1, value);
        let s0 = line_steps(item, gap, n, k - 1);
        let s1 = s0.push(FlowStep::Draw(item((k - 1) as usize)));
        let s2 = s1.push(FlowStep::Advance(Length::TextLine));
        lemma_way_push(s0, FlowStep::Draw(item((k - 1) as usize)), value);
        lemma_way_push(s1, FlowStep::Advance(Length::TextLine), value);
        lemma_way_push(s2, FlowStep::Advance(gap), value);
        let t = value(Length::TextLine);
        let g = value(gap);
        assert(t * (k - 1) + t == t * k) by (nonlinear_arith);
        assert(g * (k - 1) + g == g * k) by (nonlinear_arith);
    } else {
        let t = value(Length::TextLine);
        let g = value(gap);
        assert(t * 0 == 0 && g * 0 == 0) by (nonlinear_arith);
    }
}

proof fn lemma_throws(k: int, value: spec_fn(Length) -> int)
    requires
        0 <= k,
    ensures
        way(throw_steps(k), value) == value(Length::DetailRow) * k,
    decreases k,
{
    let d = value(Length::DetailRow);
    if k > 0 {
        lemma_throws(k - 1, value);
        let s0 = throw_steps(k - 1);
        let s1 = s0.push(FlowStep::Draw(PanelItem::ThrowsRow((k - 1) as usize)));
        lemma_way_push(s0, FlowStep::Draw(PanelItem::ThrowsRow((k - 1) as usize)), value);
        lemma_way_push(s1, FlowStep::Advance(Length::DetailRow), value);
        assert(d * (k - 1) + d == d * k) by (nonlinear_arith);
    } else {
        assert(d * 0 == 0) by (nonlinear_arith);
    }
}

proof fn lemma_messages_section(n: int, value: spec_fn(Length) -> int)
    ensures
        way(
            seq![FlowStep::Advance(Length::MessagesTop)] + message_steps(n, n) + seq![
                FlowStep::Advance(Length::MessagesBottom),
            ],
            value,
        ) == height(
            seq![(Length::MessagesTop, 1usize)] + message_terms(n, n) + seq![
                (Length::MessagesBottom, 1usize),
            ],
            value,
        ),
{
    lemma_messages(n, n, value);
    let a = seq![FlowStep::Advance(Length::MessagesTop)];
    let b = seq![FlowStep::Advance(Length::MessagesBottom)];
    lemma_way_add(a + message_steps(n, n), b, value);
    lemma_way_add(a, message_steps(n, n), value);
    let x = seq![(Length::MessagesTop, 1usize)];
    let y = seq![(Length::MessagesBottom, 1usize)];
    lemma_height_add(x + message_terms(n, n), y, value);
    lemma_height_add(x, message_terms(n, n), value);
    lemma_way_push(Seq::empty(), FlowStep::Advance(Length::MessagesTop), value);
    lemma_way_push(Seq::empty(), FlowStep::Advance(Length::MessagesBottom), value);
    lemma_height_push(Seq::empty(), (Length::MessagesTop, 1usize), value);
    lemma_height_push(Seq::empty(), (Length::MessagesBottom, 1usize), value);
    assert(a =~= Seq::<FlowStep>::empty().push(FlowStep::Advance(Length::MessagesTop)));
    assert(b =~= Seq::<FlowStep>::empty().push(FlowStep::Advance(Length::MessagesBottom)));
    assert(x =~= Seq::<Term>::empty().push((Length::MessagesTop, 1usize)));
    assert(y =~= Seq::<Term>::empty().push((Length::MessagesBottom, 1usize)));
}

proof fn lemma_way_one(s: FlowStep, value: spec_fn(Length) -> int)
    ensures
        way(seq![s], value) == match s {
            FlowStep::Advance(l) => value(l),
            FlowStep::Draw(_) => 0,
        },
{
    lemma_way_push(Seq::empty(), s, value);
    assert(seq![s] =~= Seq::<FlowStep>::empty().push(s));
}

proof fn lemma_height_four(a: Term, b: Term, c: Term, d: Term, value: spec_fn(Length) -> int)
    ensures
        height(seq![a, b, c, d], value) == value(a.0) * a.1 + value(b.0) * b.1 + value(c.0) * c.1
            + value(d.0) * d.1,
{
    let e = Seq::<Term>::empty();
    lemma_height_push(e, a, value);
    lemma_height_push(e.push(a), b, value);
    lemma_height_push(e.push(a).push(b), c, value);
    lemma_height_push(e.push(a).push(b).push(c), d, value);
    assert(seq![a, b, c, d] =~= e.push(a).push(b).push(c).push(d));
}

proof fn lemma_once(x: int, n: usize)
    by (nonlinear_arith)
    requires
        n == 1,
    ensures
        x * n == x,
{
}

proof fn lemma_results_section(c: PanelCounts, value: spec_fn(Length) -> int)
    ensures
        way(section_steps(Section::Results, c), value) == height(
            section_terms(Section::Results, c),
            value,
        ),
{
    let n = c.result_rows as int;
    lemma_rows(n, n, value);
    let top = FlowStep::Advance(Length::ResultsTop);
    let header = FlowStep::Draw(PanelItem::ResultsHeader);
    let band = FlowStep::Advance(Length::HeaderBand);
    let rule = FlowStep::Draw(PanelItem::HeaderRule);
    let body = FlowStep::Advance(Length::ResultsBody);
    let bottom = FlowStep::Advance(Length::ResultsBottom);
    let a = seq![top, header, band, rule];
    let b = seq![body, bottom];
    lemma_way_add(a + row_steps(n, n), b, value);
    lemma_way_add(a, row_steps(n, n), value);
    lemma_way_one(top, value);
    lemma_way_push(seq![top], header, value);
    lemma_way_push(seq![top].push(header), band, value);
    lemma_way_push(seq![top].push(header).push(band), rule, value);
    assert(a =~= seq![top].push(header).push(band).push(rule));
    lemma_way_one(body, value);
    lemma_way_push(seq![body], bottom, value);
    assert(b =~= seq![body].push(bottom));
    assert(section_steps(Section::Results, c) =~= a + row_steps(n, n) + b);
    lemma_height_four(
        (Length::ResultsTop, 1usize),
        (Length::HeaderBand, 1usize),
        (Length::ResultsBody, 1usize),
        (Length::ResultsBottom, 1usize),
        value,
    );
    lemma_once(value(Length::ResultsTop), 1);
    lemma_once(value(Length::HeaderBand), 1);
    lemma_once(value(Length::ResultsBody), 1);
    lemma_once(value(Length::ResultsBottom), 1);
}

proof fn lemma_lines_section(
    m: Seq<FlowStep>,
    top: Length,
    n: usize,
    gap: Length,
    bottom: Length,
    value: spec_fn(Length) -> int,
)
    requires
        way(m, value) == value(Length::TextLine) * n + value(gap) * gaps(n),
    ensures
        way(seq![FlowStep::Advance(top)] + m + seq![FlowStep::Advance(bottom)], value) == height(
            seq![(top, 1usize), (Length::TextLine, n), (gap, gaps(n)), (bottom, 1usize)],
            value,
        ),
{
    let a = seq![FlowStep::Advance(top)];
    let b = seq![FlowStep::Advance(bottom)];
    lemma_way_add(a + m, b, value);
    lemma_way_add(a, m, value);
    lemma_way_one(FlowStep::Advance(top), value);
    lemma_way_one(FlowStep::Advance(bottom), value);
    lemma_height_four(
        (top, 1usize),
        (Length::TextLine, n),
        (gap, gaps(n)),
        (bottom, 1usize),
        value,
    );
}

proof fn lemma_throws_section(c: PanelCounts, value: spec_fn(Length) -> int)
    ensures
        way(section_steps(Section::Throws, c), value) == height(
            section_terms(Section::Throws, c),
            value,
        ) + value(Length::DetailRow),
{
    let n = c.throw_rows as int;
    lemma_throws(n, value);
    let top = FlowStep::Advance(Length::ThrowsTop);
    let header = FlowStep::Draw(PanelItem::ThrowsHeader);
    let band = FlowStep::Advance(Length::ThrowsHeaderBand);
    let names = FlowStep::Draw(PanelItem::ThrowsColumns);
    let row = FlowStep::Advance(Length::DetailRow);
    let a = seq![top, header, band, names, row];
    let b = seq![FlowStep::Advance(Length::ThrowsBottom)];
    lemma_way_add(a + throw_steps(n), b, value);
    lemma_way_add(a, throw_steps(n), value);
    lemma_way_one(top, value);
    lemma_way_push(seq![top], header, value);
    lemma_way_push(seq![top].push(header), band, value);
    lemma_way_push(seq![top].push(header).push(band), names, value);
    lemma_way_push(seq![top].push(header).push(band).push(names), row, value);
    assert(a =~= seq![top].push(header).push(band).push(names).push(row));
    assert(section_steps(Section::Throws, c) =~= a + throw_steps(n) + b);
    lemma_way_one(FlowStep::Advance(Length::ThrowsBottom), value);
    lemma_height_four(
        (Length::ThrowsTop, 1usize),
        (Length::ThrowsHeaderBand, 1usize),
        (Length::DetailRow, c.throw_rows),
        (Length::ThrowsBottom, 1usize),
        value,
    );
    lemma_once(value(Length::ThrowsTop), 1);
    lemma_once(value(Length::ThrowsHeaderBand), 1);
    lemma_once(value(Length::ThrowsBottom), 1);
}

/// The height that is kept for a section is the way that its drawing takes, but
/// for the throws, whose names of columns take one row more than is kept.
pub proof fn law_section_height(s: Section, c: PanelCounts, value: spec_fn(Length) -> int)
    ensures
        way(section_steps(s, c), value) == height(section_terms(s, c), value) + if s is Throws {
            value(Length::DetailRow)
        } else {
            0
        },
{
    match s {
        Section::Messages => {
            lemma_messages_section(c.messages as int, value);
        },
        Section::Results => {
            lemma_results_section(c, value);
        },
        Section::Failure => {
            let n = c.failure_lines as int;
            lemma_lines(failure_item(), Length::FailureGap, n, n, value);
            lemma_lines_section(
                line_steps(failure_item(), Length::FailureGap, n, n),
                Length::FailureTop,
                c.failure_lines,
                Length::FailureGap,
                Length::FailureBottom,
                value,
            );
        },
        Section::Blind => {
            let n = c.blind_lines as int;
            lemma_lines(blind_item(), Length::BlindGap, n, n, value);
            lemma_lines_section(
                line_steps(blind_item(), Length::BlindGap, n, n),
                Length::BlindTop,
                c.blind_lines,
                Length::BlindGap,
                Length::BlindBottom,
                value,
            );
        },
        Section::Throws => {
            lemma_throws_section(c, value);
        },
    }
}

/// The rows of the results: those of the longest column, and, where the table
/// stands for itself, the wanted ones, one at least.
pub open spec fn longest(columns: Seq<Column>, n: int) -> int
    decreases n,
{
    if n <= 0 {
        0
    } else {
        let before = longest(columns, n - 1);
        if columns[n - 1].rows@.len() > before {
            columns[n - 1].rows@.len() as int
        } else {
            before
        }
    }
}

pub open spec fn table_rows_of(columns: Seq<Column>, base: int, shown: bool) -> int {
    let least = if !shown {
        0
    } else if base > 1 {
        base
    } else {
        1
    };
    let most = longest(columns, columns.len() as int);
    if most > least {
        most
    } else {
        least
    }
}

pub fn table_rows(columns: &Vec<Column>, base: usize, shown: bool) -> (r: usize)
    ensures
        r as int == table_rows_of(columns@, base as int, shown),
{
    let mut most: usize = 0;
    let mut i: usize = 0;
    while i < columns.len()
        invariant
            i <= columns@.len(),
            most as int == longest(columns@, i as int),
        decreases columns.len() - i,
    {
        let n: usize = columns[i].rows.len();
        if n > most {
            most = n;
        }
        i += 1;
    }
    let least: usize = if !shown {
        0
    } else if base > 1 {
        base
    } else {
        1
    };
    if most > least {
        most
    } else {
        least
    }
}

// ---------------------------------------------------------------------------
// What the panel shows
// ---------------------------------------------------------------------------

/// The panel keeps the configured distance to the edges it is anchored at: a
/// right panel to the right edge, a bottom panel to the bottom edge, a centered
/// one to the middle of the screen, any other to the left and top edges.
pub proof fn law_panel_keeps_its_distance(cfg: OverlayConfig, w: int, h: int, sw: int, sh: int)
    ensures
        ({
            let (left, top) = doubled_position(cfg, w, h, sw, sh);
            let (right, bottom) = (left + 2 * w, top + 2 * h);
            let to = cfg.relative_to@;
            &&& to == "topRightScreen"@ || to == "bottomRightScreen"@ ==> 2 * sw - right == 2
                * cfg.x
            &&& to == "bottomLeftScreen"@ || to == "bottomRightScreen"@ ==> 2 * sh - bottom == 2
                * cfg.y
            &&& to == "bottomLeftScreen"@ || to == "topLeftScreen"@ ==> left == 2 * cfg.x
            &&& to == "topRightScreen"@ || to == "topLeftScreen"@ ==> top == 2 * cfg.y
            &&& to == "centerScreen"@ ==> (left + right) - 2 * sw == 4 * cfg.x && (top + bottom)
                - 2 * sh == 4 * cfg.y
        }),
{
    reveal_strlit("topRightScreen");
    reveal_strlit("bottomLeftScreen");
    reveal_strlit("bottomRightScreen");
    reveal_strlit("centerScreen");
    reveal_strlit("topLeftScreen");
    assert("topRightScreen"@.len() == 14 && "bottomLeftScreen"@.len() == 16);
    assert("bottomRightScreen"@.len() == 17 && "centerScreen"@.len() == 12);
    assert("topLeftScreen"@.len() == 13);
}

/// A place between two pixels goes to the one that is farther from zero; whole
/// places stay, and the two signs are treated alike.
pub proof fn law_snapping(k: int)
    ensures
        whole_pixels(2 * k) == k,
        k >= 0 ==> whole_pixels(2 * k + 1) == k + 1,
        whole_pixels(-k) == -whole_pixels(k),
{
}

/// The main part of the panel is the table where a stronghold was found, even if
/// there is a blind result; else the failure, else blind travel, else an empty
/// table. It is always there. Messages are there once and in the configured
/// place, where there are any; the throws are there where they are wanted.
pub proof fn law_panel_parts(cfg: OverlayConfig, d: DataView)
    ensures
        ({
            let v = sections_of(cfg, d);
            let found = d.valid_prediction && (d.result_type == "TRIANGULATION"@ || d.result_type
                == "DIVINE"@);
            let failed = d.result_type == "FAILED"@;
            let blind = d.blind.enabled && d.blind.has_result;
            &&& found ==> v.contains(Section::Results) && !v.contains(Section::Failure)
                && !v.contains(Section::Blind)
            &&& !found && failed ==> v.contains(Section::Failure) && !v.contains(Section::Results)
                && !v.contains(Section::Blind)
            &&& !found && !failed && blind ==> v.contains(Section::Blind) && !v.contains(
                Section::Results,
            ) && !v.contains(Section::Failure)
            &&& !found && !failed && !blind ==> v.contains(Section::Results) && !v.contains(
                Section::Failure,
            ) && !v.contains(Section::Blind)
            &&& v.contains(Section::Throws) == cfg.show_throw_details
        }),
        ({
            let v = sections_of(cfg, d);
            let place = cfg.information_messages_placement@;
            let some = d.information_messages.len() > 0;
            &&& some && place == "top"@ ==> v[0] is Messages
            &&& some && place == "bottom"@ ==> v.last() is Messages
            &&& some && place == "middle"@ ==> v[1] is Messages && !(v[0] is Throws)
            &&& !some ==> !v.contains(Section::Messages)
        }),
{
    reveal_strlit("top");
    reveal_strlit("middle");
    reveal_strlit("bottom");
    assert("top"@.len() == 3 && "middle"@.len() == 6 && "bottom"@.len() == 6);
    assert("middle"@[0] != "bottom"@[0]);
    let v = sections_of(cfg, d);
    let top = messages_at(cfg, d, "top"@);
    let n = top.len() as int;
    assert(v[n] == main_section(d));
    if cfg.show_throw_details {
        let at = n + 1 + messages_at(cfg, d, "middle"@).len();
        assert(v[at] is Throws);
    }
}

/// The table shows as many predictions as there are, up to the configured number
/// of one to five; a panel that is always shown keeps room for that many.
pub proof fn law_shown_predictions(cfg: OverlayConfig, d: DataView)
    requires
        counts_ok(d),
        1 <= cfg.shown_predictions <= 5,
    ensures
        d.prediction_count <= cfg.shown_predictions ==> data_rows(cfg, d) == d.prediction_count,
        d.prediction_count >= cfg.shown_predictions ==> data_rows(cfg, d)
            == cfg.shown_predictions,
        cfg.always_show ==> base_rows(cfg, d) == cfg.shown_predictions,
        !cfg.always_show ==> base_rows(cfg, d) == data_rows(cfg, d),
{
}

/// A number of predictions that is out of range counts as the nearest that is
/// in it.
pub proof fn law_shown_predictions_are_limited(n: int)
    ensures
        1 <= wanted_rows(n) <= 5,
        1 <= n <= 5 ==> wanted_rows(n) == n,
        n <= 0 ==> wanted_rows(n) == 1,
        n >= 6 ==> wanted_rows(n) == 5,
{
}

/// The throws have room for all of them, and for as many as configured.
pub proof fn law_throw_rows_suffice(cfg: OverlayConfig, d: DataView)
    ensures
        throw_rows(cfg, d) >= d.eye_count,
        throw_rows(cfg, d) >= cfg.eye_throw_rows,
        throw_rows(cfg, d) == d.eye_count || throw_rows(cfg, d) == cfg.eye_throw_rows,
{
}

/// The boat is shown with a picture of its own for each state, where the settings
/// want it; one that is not measured only where they want it always.
pub proof fn law_boat_pictures(cfg: OverlayConfig, d: DataView)
    ensures
        !cfg.show_boat_state_in_top_bar ==> boat_icon_of(cfg, d) is None,
        cfg.show_boat_state_in_top_bar ==> {
            &&& d.boat_state == "MEASURING"@ ==> boat_icon_of(cfg, d) == Some(1int)
            &&& d.boat_state == "VALID"@ ==> boat_icon_of(cfg, d) == Some(2int)
            &&& d.boat_state == "ERROR"@ ==> boat_icon_of(cfg, d) == Some(3int)
            &&& d.boat_state == "NONE"@ ==> boat_icon_of(cfg, d) == if cfg.always_show_boat {
                Some(0int)
            } else {
                None
            }
        },
{
    reveal_strlit("NONE");
    reveal_strlit("MEASURING");
    reveal_strlit("VALID");
    reveal_strlit("ERROR");
    assert("NONE"@.len() == 4 && "MEASURING"@.len() == 9);
    assert("VALID"@.len() == 5 && "ERROR"@.len() == 5);
    assert("VALID"@[0] != "ERROR"@[0]);
}

/// A message of a locked measurement has the lock's picture, another warning or
/// error the warning's, any other the plain one.
pub proof fn law_message_pictures(before: Seq<char>, after: Seq<char>, kind: Seq<char>)
    ensures
        forall|severity: Seq<char>| #[trigger]
            icon_of(before + "lock"@ + after, severity) == 6,
        !contains(kind, "lock"@) ==> icon_of(kind, "WARNING"@) == 5 && icon_of(kind, "ERROR"@)
            == 5 && icon_of(kind, "INFO"@) == 4,
{
    let all = before + "lock"@ + after;
    assert(all.subrange(before.len() as int, (before.len() + "lock"@.len()) as int) =~= "lock"@);
    assert(matches_at(all, "lock"@, before.len() as int));
    lemma_find_from(all, "lock"@, 0);
    reveal_strlit("INFO");
    reveal_strlit("WARNING");
    reveal_strlit("ERROR");
    assert("INFO"@.len() == 4 && "WARNING"@.len() == 7 && "ERROR"@.len() == 5);
}

/// A font below the home directory is looked for there; any other path stays.
pub proof fn law_font_in_home(rest: Seq<char>, path: Seq<char>, home: Seq<char>)
    ensures
        font_path_of("~/"@ + rest, Some(home)) == home + "/"@ + rest,
        font_path_of(path, None) == path,
        path.len() < 2 || path[0] != '~' || path[1] != '/' ==> font_path_of(path, Some(home))
            == path,
{
    reveal_strlit("~/");
    let all = "~/"@ + rest;
    assert(all.subrange(0, 2) =~= "~/"@);
    assert(all.skip(2) =~= rest);
    if matches_at(path, "~/"@, 0) {
        assert(path.subrange(0, 2)[0] == path[0] && path.subrange(0, 2)[1] == path[1]);
    }
}

/// The column names of the settings are different.
proof fn lemma_column_names()
    ensures
        "coords"@.len() == 6,
        "certainty"@.len() == 9,
        "distance"@.len() == 8,
        "nether"@.len() == 6,
        "angle"@.len() == 5,
        "coords"@ != "nether"@,
{
    reveal_strlit("coords");
    reveal_strlit("certainty");
    reveal_strlit("distance");
    reveal_strlit("nether");
    reveal_strlit("angle");
    assert("coords"@[0] != "nether"@[0]);
}

proof fn lemma_prediction_cells(
    id: Seq<char>,
    cfg: OverlayConfig,
    d: DataView,
    t: Seq<RowTextsView>,
    last_angle: Seq<char>,
    n: int,
    row: int,
)
    requires
        0 <= n,
    ensures
        prediction_cells(id, cfg, d, t, last_angle, n).len() == n,
        0 <= row < n ==> prediction_cells(id, cfg, d, t, last_angle, n)[row] == prediction_cell(
            id,
            cfg,
            d,
            row,
            t[row],
            last_angle,
        ),
    decreases n,
{
    if n > 0 {
        lemma_prediction_cells(id, cfg, d, t, last_angle, n - 1, row);
    }
}

/// Each row of the table tells its own prediction: its chance, its distance, its
/// place and the place of its portal. The place is the chunk, or the block
/// (4, 4) of it; the portal's is an eighth of the chunk's first block.
pub proof fn law_rows_tell_their_prediction(
    cfg: OverlayConfig,
    d: DataView,
    rows: int,
    t: Seq<RowTextsView>,
    last_angle: Seq<char>,
    last_plain: Seq<char>,
    row: int,
)
    requires
        0 <= row < rows,
    ensures
        ({
            let p = d.predictions[row];
            let cell = |id: Seq<char>|
                column_cells(id, cfg, d, rows, t, last_angle, last_plain)[row];
            &&& cell("certainty"@).text == t[row].certainty
            &&& cell("certainty"@).color == PanelColor::Certainty(p.certainty)
            &&& cell("distance"@).text == decimal(t[row].distance as int)
            &&& cfg.coords_display@ == "chunk"@ ==> cell("coords"@).text == coords_text(
                p.chunk_x as int,
                p.chunk_z as int,
            )
            &&& cfg.coords_display@ != "chunk"@ ==> exists|x: int, z: int|
                cell("coords"@).text == #[trigger] coords_text(x, z) && x - 4 == 16 * p.chunk_x && z
                    - 4 == 16 * p.chunk_z
            &&& exists|x: int, z: int|
                cell("nether"@).text == #[trigger] coords_text(x, z) && 8 * x == 16 * p.chunk_x && 8
                    * z == 16 * p.chunk_z
        }),
        forall|id: Seq<char>|
            id != "angle"@ ==> (#[trigger] column_cells(
                id,
                cfg,
                d,
                rows,
                t,
                last_angle,
                last_plain,
            )).len() == rows,
{
    lemma_column_names();
    lemma_prediction_cells("certainty"@, cfg, d, t, last_angle, rows, row);
    lemma_prediction_cells("distance"@, cfg, d, t, last_angle, rows, row);
    lemma_prediction_cells("coords"@, cfg, d, t, last_angle, rows, row);
    lemma_prediction_cells("nether"@, cfg, d, t, last_angle, rows, row);
    assert forall|id: Seq<char>| id != "angle"@ implies (#[trigger] column_cells(
        id,
        cfg,
        d,
        rows,
        t,
        last_angle,
        last_plain,
    )).len() == rows by {
        lemma_prediction_cells(id, cfg, d, t, last_angle, rows, row);
    }
    let p = d.predictions[row];
    assert(column_cells("nether"@, cfg, d, rows, t, last_angle, last_plain)[row].text
        == coords_text(p.chunk_x * 2, p.chunk_z * 2));
    if cfg.coords_display@ != "chunk"@ {
        assert(column_cells("coords"@, cfg, d, rows, t, last_angle, last_plain)[row].text
            == coords_text(p.chunk_x * 16 + 4, p.chunk_z * 16 + 4));
    }
}

/// The angle column tells the angle to the prediction where it is known, and
/// with it, where wanted, to which side and how far to turn. Else it tells the
/// last throw's angle where a stronghold was found, and a dash where none was.
pub proof fn law_rows_tell_their_angle(
    cfg: OverlayConfig,
    d: DataView,
    rows: int,
    t: Seq<RowTextsView>,
    last_angle: Seq<char>,
    last_plain: Seq<char>,
    row: int,
)
    requires
        0 <= row < rows,
    ensures
        ({
            let c = column_cells("angle"@, cfg, d, rows, t, last_angle, last_plain)[row];
            let known = row < d.prediction_angles.len() && d.prediction_angles[row].valid;
            let found = d.valid_prediction && (d.result_type == "TRIANGULATION"@ || d.result_type
                == "DIVINE"@);
            &&& known && !cfg.show_direction_to_stronghold ==> c.text == t[row].angle
            &&& known && cfg.show_direction_to_stronghold && t[row].positive ==> c.text
                == t[row].angle + " ("@ + "-> "@ + t[row].correction + ")"@
            &&& known && cfg.show_direction_to_stronghold && !t[row].positive ==> c.text
                == t[row].angle + " ("@ + "<- "@ + t[row].correction + ")"@
            &&& known && cfg.show_direction_to_stronghold ==> c.color == PanelColor::Correction(
                d.prediction_angles[row].needed_correction,
            ) && c.prefix == t[row].angle
            &&& !known && found ==> c.text == last_angle
            &&& !known && !found ==> c.text == "-"@
        }),
{
    lemma_column_names();
    lemma_prediction_cells("angle"@, cfg, d, t, last_angle, rows, row);
}

/// Below the rows the angle column tells the last throw, with the increments that
/// the bot reports or, where it does not, those that were counted; only where the
/// throws are not listed. With neither rows nor throws it holds a dash.
pub proof fn law_last_throw_below_the_rows(
    cfg: OverlayConfig,
    d: DataView,
    rows: int,
    t: Seq<RowTextsView>,
    last_angle: Seq<char>,
    last_plain: Seq<char>,
)
    requires
        0 <= rows,
        counts_ok(d),
    ensures
        ({
            let v = column_cells("angle"@, cfg, d, rows, t, last_angle, last_plain);
            let last = d.throws[d.eye_count - 1];
            let n = if last.has_correction_increments {
                last.correction_increments
            } else {
                d.correction_increments_151
            };
            &&& cfg.show_throw_details && (rows > 0 || d.eye_count > 0) ==> v.len() == rows
            &&& !cfg.show_throw_details && d.eye_count > 0 ==> v.len() == rows + 1
                && v.last().text == last_plain + increment_suffix(n as int)
            &&& rows == 0 && d.eye_count == 0 ==> v.len() == 1 && v[0].text == "-"@
        }),
{
    lemma_column_names();
    lemma_prediction_cells("angle"@, cfg, d, t, last_angle, rows, 0);
}

/// A coordinate has the color of its sign, the first and the second one each
/// their own; a prefix of another color is there only where the two differ.
pub proof fn law_coordinate_colors(x: int, z: int)
    ensures
        ({
            let c = coords_cell_of(x, z);
            &&& z < 0 <==> c.color is CoordNegative
            &&& z >= 0 <==> c.color is CoordPositive
            &&& x < 0 <==> c.part1_color is CoordNegative
            &&& x >= 0 <==> c.part1_color is CoordPositive
            &&& c.prefix.len() > 0 <==> c.color != c.part1_color
        }),
{
    reveal_strlit("(");
    assert("("@.len() == 1);
}

/// Counted increments follow the angle with their sign and in the color of it.
pub proof fn law_increment_colors(angle: Seq<char>, n: i32, color: PanelColor)
    ensures
        ({
            let c = subpixel_cell_of(angle, n, color);
            &&& n == 0 ==> c.text == angle && c.color == color
            &&& n > 0 ==> c.text == angle + seq!['+'] + decimal(n as int)
                && c.color is SubpixelPositive
            &&& n < 0 ==> c.text == angle + seq!['-'] + decimal(-(n as int))
                && c.color is SubpixelNegative
        }),
{
    if n > 0 {
        assert(angle + (seq!['+'] + decimal(n as int)) =~= angle + seq!['+'] + decimal(n as int));
    } else if n < 0 {
        assert(angle + (seq!['-'] + decimal(-(n as int))) =~= angle + seq!['-'] + decimal(
            -(n as int),
        ));
    }
}

/// A row of the throws tells where the throw was made, its angle with the
/// increments, and its error; what is not known is a dash, an error below 1e-9
/// too, and a row without a throw is empty.
pub proof fn law_throw_rows_tell_their_throw(
    d: DataView,
    row: int,
    x: Seq<char>,
    z: Seq<char>,
    angle: Seq<char>,
    error: Seq<char>,
)
    requires
        counts_ok(d),
        0 <= row,
    ensures
        ({
            let c = throw_cells(d, row, x, z, angle, error);
            let t = d.throws[row];
            let bits = t.error;
            let small = bits <= 0x3e11_2e0b_e826_d695 || 0x8000_0000_0000_0000 <= bits
                <= 0xbe11_2e0b_e826_d695;
            let large = 0x3e11_2e0b_e826_d695 < bits <= 0x7ff0_0000_0000_0000
                || 0xbe11_2e0b_e826_d695 < bits <= 0xfff0_0000_0000_0000;
            &&& c.len() == 4
            &&& row >= d.eye_count ==> c[0].text.len() == 0 && c[1].text.len() == 0
                && c[2].text.len() == 0 && c[3].text.len() == 0
            &&& row < d.eye_count && t.has_position ==> c[0].text == x && c[1].text == z
            &&& row < d.eye_count && !t.has_position ==> c[0].text == "-"@ && c[1].text == "-"@
            &&& row < d.eye_count && t.has_correction_increments ==> c[2].text == angle
                + increment_suffix(t.correction_increments as int)
            &&& row < d.eye_count && !t.has_correction_increments && row == d.eye_count - 1
                ==> c[2].text == angle + increment_suffix(d.correction_increments_151 as int)
            &&& row < d.eye_count - 1 && !t.has_correction_increments ==> c[2].text == angle
            &&& row < d.eye_count && small ==> c[3].text == "-"@
            &&& row < d.eye_count && large ==> c[3].text == error
        }),
{
    assert(angle + Seq::<char>::empty() =~= angle);
}

/// Blind travel is told in two lines: where the portal is and how good that is,
/// and the chance; a third one tells where to go, unless it is excellent already.
pub proof fn law_blind_lines(d: DataView, n: BlindNumbers)
    ensures
        ({
            let v = blind_text(d, n);
            let on = d.blind.enabled && d.blind.has_result;
            &&& !on ==> v.len() == 0
            &&& on && d.blind.evaluation == "EXCELLENT"@ ==> v.len() == 2
            &&& on && d.blind.evaluation != "EXCELLENT"@ ==> v.len() == 3
            &&& on ==> {
                &&& v[0][0].0 == "Blind "@ + "coords "@ + coords_text(n.x as int, n.z as int)
                    + " are "@
                &&& v[0][1].0 == blind_words(d.blind.evaluation)
                &&& v[0][1].1 == PanelColor::Blind(blind_quarters(d.blind.evaluation) as u8)
                &&& v[1][0].0 == n.chance@
                &&& v[1][0].1 == PanelColor::HighRoll(d.blind.highroll_probability)
                &&& exists|a: Seq<char>, b: Seq<char>|
                    v[1][1].0 == #[trigger] (a + decimal(n.threshold as int) + b)
            }
            &&& v.len() == 3 ==> exists|a: Seq<char>, b: Seq<char>, c: Seq<char>|
                v[2][0].0 == #[trigger] (a + decimal(n.direction as int) + b + decimal(
                    n.distance as int,
                ) + c) && a == "Head "@
        }),
{
    reveal_strlit("Blind coords (");
    reveal_strlit("Blind ");
    reveal_strlit("coords ");
    reveal_strlit("(");
    reveal_strlit(") are ");
    reveal_strlit(")");
    reveal_strlit(" are ");
    let v = blind_text(d, n);
    if d.blind.enabled && d.blind.has_result {
        assert("Blind coords ("@ =~= "Blind "@ + "coords "@ + "("@);
        assert(") are "@ =~= ")"@ + " are "@);
        assert(v[0][0].0 =~= "Blind "@ + "coords "@ + coords_text(n.x as int, n.z as int)
            + " are "@);
        assert(v[1][1].0 == " chance of <"@ + decimal(n.threshold as int) + " block blind"@);
        if v.len() == 3 {
            assert(v[2][0].0 == "Head "@ + decimal(n.direction as int) + "\u{00B0}, "@ + decimal(
                n.distance as int,
            ) + " blocks away, for better coords"@);
        }
    }
}

/// Each character of a line with its color.
pub open spec fn painted(line: Seq<(Seq<char>, u32)>) -> Seq<(char, u32)>
    decreases line.len(),
{
    if line.len() == 0 {
        Seq::empty()
    } else {
        painted(line.drop_last()) + line.last().0.map_values(|c: char| (c, line.last().1))
    }
}

/// Each character of all lines with its color.
pub open spec fn painted_lines(lines: Seq<Seq<(Seq<char>, u32)>>) -> Seq<(char, u32)>
    decreases lines.len(),
{
    if lines.len() == 0 {
        Seq::empty()
    } else {
        painted_lines(lines.drop_last()) + painted(lines.last())
    }
}

/// How many lines begin among the first `n` words, behind the first line.
pub open spec fn breaks_in(breaks: Seq<bool>, n: int) -> int
    decreases n,
{
    if n <= 0 {
        0
    } else {
        breaks_in(breaks, n - 1) + if breaks[n - 1] {
            1int
        } else {
            0int
        }
    }
}

proof fn lemma_painted_with_word(line: Seq<(Seq<char>, u32)>, word: (Seq<char>, u32))
    ensures
        painted(with_word(line, word)) == painted(line) + word.0.map_values(
            |c: char| (c, word.1),
        ),
{
    let w = word.0.map_values(|c: char| (c, word.1));
    if line.len() > 0 && line.last().1 == word.1 {
        let rest = line.drop_last();
        let joined = rest.push((line.last().0 + word.0, word.1));
        assert(joined.drop_last() =~= rest);
        assert((line.last().0 + word.0).map_values(|c: char| (c, word.1))
            =~= line.last().0.map_values(|c: char| (c, line.last().1)) + w);
        assert(painted(joined) =~= painted(line) + w);
    } else {
        assert(line.push(word).drop_last() =~= line);
    }
}

/// Wrapping keeps every character and its color, in order, and makes one line
/// more for each break.
pub proof fn law_wrap_keeps_colors(words: Seq<(Seq<char>, u32)>, breaks: Seq<bool>, n: int)
    requires
        0 <= n <= words.len(),
        breaks.len() == words.len(),
    ensures
        painted_lines(wrapped(words, breaks, n)) == painted(words.take(n)),
        wrapped(words, breaks, n).len() == 1 + breaks_in(breaks, n),
    decreases n,
{
    if n == 0 {
        let v = wrapped(words, breaks, 0);
        assert(v.drop_last() =~= Seq::<Seq<(Seq<char>, u32)>>::empty());
        assert(painted_lines(v.drop_last()) =~= Seq::<(char, u32)>::empty());
        assert(v.last() =~= Seq::<(Seq<char>, u32)>::empty());
        assert(painted_lines(v) =~= painted(words.take(0)));
    } else {
        law_wrap_keeps_colors(words, breaks, n - 1);
        let before = wrapped(words, breaks, n - 1);
        let lines = if breaks[n - 1] {
            before.push(Seq::empty())
        } else {
            before
        };
        lemma_breaks_in(breaks, n - 1);
        let v = wrapped(words, breaks, n);
        let w = words[n - 1];
        assert(before.push(Seq::empty()).drop_last() =~= before);
        assert(painted_lines(lines) =~= painted_lines(before));
        assert(v.drop_last() =~= lines.drop_last());
        assert(v.last() == with_word(lines.last(), w));
        lemma_painted_with_word(lines.last(), w);
        assert(words.take(n).drop_last() =~= words.take(n - 1));
        assert(words.take(n).last() == w);
        assert(painted_lines(v) =~= painted(words.take(n)));
    }
}

proof fn lemma_breaks_in(breaks: Seq<bool>, n: int)
    ensures
        breaks_in(breaks, n) >= 0,
    decreases n,
{
    if n > 0 {
        lemma_breaks_in(breaks, n - 1);
    }
}

/// A word that begins a line stands at the front of the last line, and one that
/// does not stands behind the text that the line had.
pub proof fn law_words_go_to_the_last_line(
    words: Seq<(Seq<char>, u32)>,
    breaks: Seq<bool>,
    n: int,
)
    requires
        0 < n <= words.len(),
        breaks.len() == words.len(),
    ensures
        breaks[n - 1] ==> painted(wrapped(words, breaks, n).last()) == words[n - 1].0.map_values(
            |c: char| (c, words[n - 1].1),
        ),
        !breaks[n - 1] ==> painted(wrapped(words, breaks, n).last()) == painted(
            wrapped(words, breaks, n - 1).last(),
        ) + words[n - 1].0.map_values(|c: char| (c, words[n - 1].1)),
{
    let before = wrapped(words, breaks, n - 1);
    law_wrap_keeps_colors(words, breaks, n - 1);
    lemma_painted_with_word(before.last(), words[n - 1]);
    lemma_painted_with_word(Seq::empty(), words[n - 1]);
    let w = words[n - 1].0.map_values(|c: char| (c, words[n - 1].1));
    assert(Seq::<(char, u32)>::empty() + w =~= w);
}

/// A cell is split in front of the first character that reaches the limit.
pub proof fn law_split_at_the_limit(reached: Seq<bool>, i: int)
    requires
        0 <= i <= reached.len(),
    ensures
        i <= split_index(reached, i) <= reached.len(),
        forall|k: int| i <= k < split_index(reached, i) ==> !#[trigger] reached[k],
        split_index(reached, i) < reached.len() ==> reached[split_index(reached, i)],
    decreases reached.len() - i,
{
    if i < reached.len() && !reached[i] {
        law_split_at_the_limit(reached, i + 1);
    }
}

/// An outline of one pixel is all of the pixels around one; a wider outline is
/// the sampled ring without its middle.
pub proof fn law_outline_is_the_ring(r: i32, samples: Seq<(i32, i32)>, p: (i32, i32))
    ensures
        r <= 0 ==> outline_of(r, samples).len() == 0,
        outline_of(1, samples).contains(p) <==> -1 <= p.0 <= 1 && -1 <= p.1 <= 1 && p != (
            0i32,
            0i32,
        ),
        r > 1 ==> (outline_of(r, samples).contains(p) <==> samples.contains(p) && p != (
            0i32,
            0i32,
        )),
{
    let n = neighbors();
    assert(n[0] == (-1i32, -1i32) && n[1] == (0i32, -1i32) && n[2] == (1i32, -1i32));
    assert(n[3] == (-1i32, 0i32) && n[4] == (1i32, 0i32));
    assert(n[5] == (-1i32, 1i32) && n[6] == (0i32, 1i32) && n[7] == (1i32, 1i32));
    if r > 1 {
        lemma_ring_holds(samples, samples.len() as int, p);
        if samples.contains(p) {
            let i = choose|i: int| 0 <= i < samples.len() && samples[i] == p;
            assert(samples.take(samples.len() as int)[i] == p);
        }
        assert(samples.take(samples.len() as int) =~= samples);
    }
}

proof fn lemma_ring_holds(samples: Seq<(i32, i32)>, n: int, p: (i32, i32))
    requires
        0 <= n <= samples.len(),
    ensures
        ring_points(samples, n).contains(p) <==> samples.take(n).contains(p) && p != (0i32, 0i32),
    decreases n,
{
    if n > 0 {
        lemma_ring_holds(samples, n - 1, p);
        let rest = ring_points(samples, n - 1);
        let q = samples[n - 1];
        let front = samples.take(n - 1);
        assert(samples.take(n) =~= front.push(q));
        assert(front.push(q).contains(p) <==> front.contains(p) || q == p) by {
            if front.contains(p) {
                let i = choose|i: int| 0 <= i < front.len() && front[i] == p;
                assert(front.push(q)[i] == p);
            }
            assert(front.push(q)[n - 1] == q);
        }
        assert(rest.push(q).contains(p) <==> rest.contains(p) || q == p) by {
            if rest.contains(p) {
                let i = choose|i: int| 0 <= i < rest.len() && rest[i] == p;
                assert(rest.push(q)[i] == p);
            }
            assert(rest.push(q)[rest.len() as int] == q);
        }
    }
}

/// Every message, row and line of a section is drawn, and no others; a divider
/// stands below each row but the last.
pub proof fn law_items_are_drawn(c: PanelCounts, i: usize)
    ensures
        section_steps(Section::Messages, c).contains(FlowStep::Draw(PanelItem::Message(i)))
            <==> i < c.messages,
        section_steps(Section::Results, c).contains(FlowStep::Draw(PanelItem::ResultsRow(i)))
            <==> i < c.result_rows,
        section_steps(Section::Results, c).contains(FlowStep::Draw(PanelItem::RowDivider(i)))
            <==> i + 1 < c.result_rows,
        section_steps(Section::Failure, c).contains(FlowStep::Draw(PanelItem::FailureLine(i)))
            <==> i < c.failure_lines,
        section_steps(Section::Blind, c).contains(FlowStep::Draw(PanelItem::BlindLine(i)))
            <==> i < c.blind_lines,
        section_steps(Section::Throws, c).contains(FlowStep::Draw(PanelItem::ThrowsRow(i)))
            <==> i < c.throw_rows,
{
    let m = FlowStep::Draw(PanelItem::Message(i));
    lemma_message_steps(c.messages as int, c.messages as int, i);
    lemma_in_middle(
        seq![FlowStep::Advance(Length::MessagesTop)],
        message_steps(c.messages as int, c.messages as int),
        seq![FlowStep::Advance(Length::MessagesBottom)],
        m,
    );
    let head = seq![
        FlowStep::Advance(Length::ResultsTop),
        FlowStep::Draw(PanelItem::ResultsHeader),
        FlowStep::Advance(Length::HeaderBand),
        FlowStep::Draw(PanelItem::HeaderRule),
    ];
    let foot = seq![
        FlowStep::Advance(Length::ResultsBody),
        FlowStep::Advance(Length::ResultsBottom),
    ];
    lemma_row_steps(c.result_rows as int, c.result_rows as int, i);
    let rows = row_steps(c.result_rows as int, c.result_rows as int);
    lemma_in_middle(head, rows, foot, FlowStep::Draw(PanelItem::ResultsRow(i)));
    lemma_in_middle(head, rows, foot, FlowStep::Draw(PanelItem::RowDivider(i)));
    lemma_line_steps(
        failure_item(),
        Length::FailureGap,
        c.failure_lines as int,
        c.failure_lines as int,
        i,
    );
    lemma_in_middle(
        seq![FlowStep::Advance(Length::FailureTop)],
        line_steps(
            failure_item(),
            Length::FailureGap,
            c.failure_lines as int,
            c.failure_lines as int,
        ),
        seq![FlowStep::Advance(Length::FailureBottom)],
        FlowStep::Draw(PanelItem::FailureLine(i)),
    );
    lemma_line_steps(
        blind_item(),
        Length::BlindGap,
        c.blind_lines as int,
        c.blind_lines as int,
        i,
    );
    lemma_in_middle(
        seq![FlowStep::Advance(Length::BlindTop)],
        line_steps(
            blind_item(),
            Length::BlindGap,
            c.blind_lines as int,
            c.blind_lines as int,
        ),
        seq![FlowStep::Advance(Length::BlindBottom)],
        FlowStep::Draw(PanelItem::BlindLine(i)),
    );
    lemma_throw_steps(c.throw_rows as int, i);
    lemma_in_middle(
        seq![
            FlowStep::Advance(Length::ThrowsTop),
            FlowStep::Draw(PanelItem::ThrowsHeader),
            FlowStep::Advance(Length::ThrowsHeaderBand),
            FlowStep::Draw(PanelItem::ThrowsColumns),
            FlowStep::Advance(Length::DetailRow),
        ],
        throw_steps(c.throw_rows as int),
        seq![FlowStep::Advance(Length::ThrowsBottom)],
        FlowStep::Draw(PanelItem::ThrowsRow(i)),
    );
}

proof fn lemma_in_middle(a: Seq<FlowStep>, b: Seq<FlowStep>, c: Seq<FlowStep>, x: FlowStep)
    requires
        !a.contains(x),
        !c.contains(x),
    ensures
        (a + b + c).contains(x) <==> b.contains(x),
{
    let all = a + b + c;
    if b.contains(x) {
        let i = choose|i: int| 0 <= i < b.len() && b[i] == x;
        assert(all[a.len() + i] == x);
    }
    if all.contains(x) {
        let i = choose|i: int| 0 <= i < all.len() && all[i] == x;
        if i < a.len() {
            assert(a[i] == x);
        } else if i < a.len() + b.len() {
            assert(b[i - a.len()] == x);
        } else {
            assert(c[i - a.len() - b.len()] == x);
        }
    }
}

proof fn lemma_pushed(v: Seq<FlowStep>, y: FlowStep, x: FlowStep)
    ensures
        v.push(y).contains(x) <==> v.contains(x) || x == y,
{
    if v.contains(x) {
        let i = choose|i: int| 0 <= i < v.len() && v[i] == x;
        assert(v.push(y)[i] == x);
    }
    assert(v.push(y)[v.len() as int] == y);
}

proof fn lemma_message_steps(n: int, k: int, i: usize)
    requires
        k <= usize::MAX,
    ensures
        message_steps(n, k).contains(FlowStep::Draw(PanelItem::Message(i))) <==> i < k,
    decreases k,
{
    if k > 0 {
        lemma_message_steps(n, k - 1, i);
        let x = FlowStep::Draw(PanelItem::Message(i));
        let v = message_steps(n, k - 1);
        let v1 = v.push(FlowStep::Draw(PanelItem::Message((k - 1) as usize)));
        let v2 = v1.push(FlowStep::Advance(Length::MessageRow((k - 1) as usize)));
        let v3 = v2.push(FlowStep::Advance(Length::MessageGap));
        let v4 = v3.push(FlowStep::Draw(PanelItem::MessageRule));
        lemma_pushed(v, FlowStep::Draw(PanelItem::Message((k - 1) as usize)), x);
        lemma_pushed(v1, FlowStep::Advance(Length::MessageRow((k - 1) as usize)), x);
        lemma_pushed(v2, FlowStep::Advance(Length::MessageGap), x);
        lemma_pushed(v3, FlowStep::Draw(PanelItem::MessageRule), x);
        lemma_pushed(v4, FlowStep::Advance(Length::Pixel), x);
    }
}

proof fn lemma_row_steps(n: int, k: int, i: usize)
    requires
        k <= n <= usize::MAX,
    ensures
        row_steps(n, k).contains(FlowStep::Draw(PanelItem::ResultsRow(i))) <==> i < k,
        row_steps(n, k).contains(FlowStep::Draw(PanelItem::RowDivider(i))) <==> i < k && i + 1 < n,
    decreases k,
{
    if k > 0 {
        lemma_row_steps(n, k - 1, i);
        let v = row_steps(n, k - 1);
        let divider = FlowStep::Draw(PanelItem::RowDivider((k - 1) as usize));
        let row = FlowStep::Draw(PanelItem::ResultsRow((k - 1) as usize));
        let v1 = if k < n {
            v.push(divider)
        } else {
            v
        };
        lemma_pushed(v, divider, FlowStep::Draw(PanelItem::ResultsRow(i)));
        lemma_pushed(v, divider, FlowStep::Draw(PanelItem::RowDivider(i)));
        lemma_pushed(v1, row, FlowStep::Draw(PanelItem::ResultsRow(i)));
        lemma_pushed(v1, row, FlowStep::Draw(PanelItem::RowDivider(i)));
    }
}

proof fn lemma_line_steps(
    item: spec_fn(usize) -> PanelItem,
    gap: Length,
    n: int,
    k: int,
    i: usize,
)
    requires
        k <= usize::MAX,
        forall|a: usize, b: usize| #[trigger] item(a) == #[trigger] item(b) ==> a == b,
    ensures
        line_steps(item, gap, n, k).contains(FlowStep::Draw(item(i))) <==> i < k,
    decreases k,
{
    if k > 0 {
        lemma_line_steps(item, gap, n, k - 1, i);
        let x = FlowStep::Draw(item(i));
        let v = line_steps(item, gap, n, k - 1);
        let v1 = v.push(FlowStep::Draw(item((k - 1) as usize)));
        let v2 = v1.push(FlowStep::Advance(Length::TextLine));
        lemma_pushed(v, FlowStep::Draw(item((k - 1) as usize)), x);
        lemma_pushed(v1, FlowStep::Advance(Length::TextLine), x);
        lemma_pushed(v2, FlowStep::Advance(gap), x);
    }
}

proof fn lemma_throw_steps(k: int, i: usize)
    requires
        k <= usize::MAX,
    ensures
        throw_steps(k).contains(FlowStep::Draw(PanelItem::ThrowsRow(i))) <==> i < k,
    decreases k,
{
    if k > 0 {
        lemma_throw_steps(k - 1, i);
        let x = FlowStep::Draw(PanelItem::ThrowsRow(i));
        let v = throw_steps(k - 1);
        let v1 = v.push(FlowStep::Draw(PanelItem::ThrowsRow((k - 1) as usize)));
        lemma_pushed(v, FlowStep::Draw(PanelItem::ThrowsRow((k - 1) as usize)), x);
        lemma_pushed(v1, FlowStep::Advance(Length::DetailRow), x);
    }
}

/// The table has room for its longest column, for the rows that are kept free,
/// and for one row at least where it is shown; it is no longer than that.
pub proof fn law_table_has_room(columns: Seq<Column>, base: int, shown: bool, i: int)
    requires
        0 <= i < columns.len(),
    ensures
        ({
            let n = table_rows_of(columns, base, shown);
            &&& columns[i].rows@.len() <= n
            &&& shown ==> base <= n && 1 <= n
            &&& n == 0 || (shown && (n == base || n == 1)) || exists|k: int|
                0 <= k < columns.len() && (#[trigger] columns[k]).rows@.len() == n
        }),
{
    lemma_longest(columns, columns.len() as int, i);
}

proof fn lemma_longest(columns: Seq<Column>, n: int, i: int)
    requires
        0 <= n <= columns.len(),
    ensures
        0 <= i < n ==> columns[i].rows@.len() <= longest(columns, n),
        longest(columns, n) >= 0,
        longest(columns, n) == 0 || exists|k: int|
            0 <= k < n && (#[trigger] columns[k]).rows@.len() == longest(columns, n),
    decreases n,
{
    if n > 0 {
        lemma_longest(columns, n - 1, i);
        assert(columns[n - 1].rows@.len() >= 0);
    }
}

/// A column is as wide as the widest text of its kind: coordinates have up to five
/// digits and chunks up to three, with their signs; angles tell the direction where
/// that is asked for, and their corrections where these have no part of their own.
pub proof fn law_column_samples(cfg: OverlayConfig)
    ensures
        cfg.coords_display@ == "chunk"@ ==> samples_of(cfg, "coords"@) == seq!["(-999, -999)"@],
        cfg.coords_display@ != "chunk"@ ==> samples_of(cfg, "coords"@) == seq!["(-99999, -99999)"@],
        samples_of(cfg, "nether"@) == seq!["(-99999, -99999)"@],
        samples_of(cfg, "certainty"@) == seq!["100.00%"@],
        samples_of(cfg, "distance"@) == seq!["999999"@],
        cfg.show_direction_to_stronghold ==> samples_of(cfg, "angle"@)[0] == "-359.99 (-> 359.0)"@,
        !cfg.show_direction_to_stronghold ==> samples_of(cfg, "angle"@)[0] == "-359.99"@,
        cfg.show_throw_details ==> samples_of(cfg, "angle"@).len() == 1,
        !cfg.show_throw_details ==> samples_of(cfg, "angle"@).len() == 2 && samples_of(
            cfg,
            "angle"@,
        )[1] == "-359.99+999"@,
{
    reveal_strlit("coords");
    reveal_strlit("certainty");
    reveal_strlit("distance");
    reveal_strlit("nether");
    reveal_strlit("angle");
    assert("coords"@[0] == 'c' && "certainty"@[0] == 'c' && "coords"@.len() == 6);
    assert("certainty"@.len() == 9 && "distance"@.len() == 8 && "nether"@.len() == 6);
    assert("nether"@[0] == 'n' && "angle"@.len() == 5);
}

} // verus!
