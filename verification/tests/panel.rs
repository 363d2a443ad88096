use tuxinjector::nbb_data::{
    NbbInfoMessage, NbbPrediction, NbbPredictionAngle, NbbThrow, NinjabrainData,
};
use tuxinjector::nbb_overlay::{
    anchor_position, boat_icon, build_blind_lines, build_column, column_samples, failure_lines,
    font_file, icon_picture, message_icon, outline_offsets, outline_samples, overlay_should_show,
    panel_flow, panel_sections, result_rows, run_words, section_height, snapped, split_cell,
    state_parts, table_rows, throw_row_cells, throws_row_count, wrap_runs, BlindNumbers,
    ColumnConfig, FlowStep, KeyPart, Length, OverlayConfig, PanelCache, PanelColor, PanelCounts,
    PanelItem, PanelStep, RowTexts, Section, ThrowTexts, WrapPiece,
};

fn config() -> OverlayConfig {
    OverlayConfig {
        enabled: false,
        allowed_modes: Vec::new(),
        hide_if_stale: false,
        hide_if_stale_delay_seconds: 60,
        always_show_boat: false,
        always_show: false,
        shown_predictions: 5,
        columns: Vec::new(),
        static_column_widths: false,
        coords_display: "chunk".to_string(),
        show_direction_to_stronghold: true,
        show_throw_details: true,
        eye_throw_rows: 3,
        information_messages_placement: "middle".to_string(),
        show_boat_state_in_top_bar: true,
        relative_to: "bottomLeftScreen".to_string(),
        x: 4,
        y: -5,
    }
}

fn ring(r: i32) -> Vec<(i32, i32)> {
    let samples = outline_samples(r);
    (0..samples)
        .map(|i| {
            let a = i as f32 / samples as f32 * std::f32::consts::TAU;
            ((a.cos() * r as f32).round() as i32, (a.sin() * r as f32).round() as i32)
        })
        .collect()
}

#[test]
fn outline_ring() {
    assert_eq!(outline_offsets(0, &ring(0)).len(), 0);
    assert_eq!(outline_offsets(1, &ring(1)).len(), 8);
    let r2 = outline_offsets(2, &ring(2));
    assert!(r2.len() >= 8 && !r2.contains(&(0, 0)));
    for (i, p) in r2.iter().enumerate() {
        assert!(!r2[..i].contains(p));
    }
}

fn position(cfg: &OverlayConfig) -> (f32, f32) {
    let (x, y) = anchor_position(cfg, 100, 50, 1920, 1080);
    (x as f32 / 2.0, y as f32 / 2.0)
}

#[test]
fn anchors() {
    let mut cfg = config();
    assert_eq!(position(&cfg), (4.0, 1080.0 - 50.0 + 5.0));
    cfg.relative_to = "topRightScreen".into();
    cfg.x = 10;
    cfg.y = 20;
    assert_eq!(position(&cfg), (1810.0, 20.0));
    cfg.relative_to = "centerScreen".into();
    assert_eq!(position(&cfg), (920.0, 535.0));
    cfg.relative_to = "bottomRightScreen".into();
    assert_eq!(position(&cfg), (1810.0, 1010.0));
    cfg.relative_to = "anything".into();
    assert_eq!(position(&cfg), (10.0, 20.0));
}

#[test]
fn halves_round_away_from_zero() {
    for h in -9i64..10 {
        assert_eq!(snapped(h), (h as f64 / 2.0).round() as i64);
    }
}

#[test]
fn visibility_gating() {
    let mut cfg = config();
    cfg.enabled = true;
    let d = NinjabrainData::default();
    assert!(!overlay_should_show(&cfg, true, "", &d, 0), "empty data hides");
    cfg.always_show = true;
    assert!(overlay_should_show(&cfg, true, "", &d, 0));
    cfg.always_show = false;
    let mut d2 = NinjabrainData::default();
    d2.result_type = "FAILED".into();
    assert!(overlay_should_show(&cfg, true, "", &d2, 0));
    assert!(!overlay_should_show(&cfg, false, "", &d2, 0), "the hotkey hides");
    cfg.enabled = false;
    assert!(!overlay_should_show(&cfg, true, "", &d2, 0));
}

#[test]
fn modes_and_age_hide_the_panel() {
    let mut cfg = config();
    cfg.enabled = true;
    cfg.always_show = true;
    cfg.allowed_modes = vec!["Thin".to_string()];
    let mut d = NinjabrainData::default();
    assert!(!overlay_should_show(&cfg, true, "Wide", &d, 0));
    assert!(overlay_should_show(&cfg, true, "Thin", &d, 0));
    cfg.hide_if_stale = true;
    cfg.hide_if_stale_delay_seconds = 2;
    assert!(!overlay_should_show(&cfg, true, "Thin", &d, 0), "nothing came yet");
    d.last_update = Some(1000);
    assert!(overlay_should_show(&cfg, true, "Thin", &d, 2999));
    assert!(!overlay_should_show(&cfg, true, "Thin", &d, 3000));
    cfg.hide_if_stale_delay_seconds = 0;
    assert!(overlay_should_show(&cfg, true, "Thin", &d, 1999));
    assert!(!overlay_should_show(&cfg, true, "Thin", &d, 2000));
}

fn throw() -> NbbThrow {
    NbbThrow {
        x_in_overworld: 12.3f64.to_bits(),
        z_in_overworld: (-45.6f64).to_bits(),
        has_position: true,
        angle: (-42.0f64).to_bits(),
        angle_without_correction: (-42.0f64).to_bits(),
        correction: 0,
        error: 0.002f64.to_bits(),
        correction_increments: 0,
        has_correction_increments: false,
        throw_type: "NORMAL".to_string(),
    }
}

fn found() -> NinjabrainData {
    let mut d = NinjabrainData::default();
    d.result_type = "TRIANGULATION".into();
    d.valid_prediction = true;
    d.prediction_count = 2;
    d.predictions = vec![
        NbbPrediction { chunk_x: 10, chunk_z: -20, certainty: 0.93f64.to_bits(), overworld_distance: 500f64.to_bits() },
        NbbPrediction { chunk_x: -11, chunk_z: 21, certainty: 0.07f64.to_bits(), overworld_distance: 700f64.to_bits() },
    ];
    d.prediction_angles = vec![
        NbbPredictionAngle { actual_angle: (-42.5f64).to_bits(), needed_correction: 3f64.to_bits(), valid: true },
        NbbPredictionAngle { actual_angle: 0, needed_correction: 0, valid: false },
    ];
    d.eye_count = 1;
    d.throws = vec![throw()];
    d.information_messages = vec![NbbInfoMessage {
        severity: "WARNING".into(),
        msg_type: "MISMEASURE".into(),
        message: "x".into(),
    }];
    d.boat_state = "VALID".into();
    d
}

fn texts() -> Vec<RowTexts> {
    vec![
        RowTexts { certainty: "93.0%".into(), distance: 500, angle: "-42.50".into(), correction: "3.0".into(), positive: true },
        RowTexts { certainty: "7.0%".into(), distance: 700, angle: "0.00".into(), correction: "0.0".into(), positive: false },
    ]
}

fn column(id: &str) -> ColumnConfig {
    ColumnConfig { id: id.to_string(), header: format!("h {id}"), show: true, static_width: 0 }
}

#[test]
fn columns_are_filled() {
    let d = found();
    let mut cfg = config();
    let (base, rows) = result_rows(&cfg, &d);
    assert_eq!((base, rows), (2, 2));
    let fill = |cfg: &OverlayConfig, id: &str| {
        build_column(&column(id), cfg, &d, 2, &texts(), "-42.00", "-42.00")
    };
    let c = fill(&cfg, "coords");
    assert_eq!(c.header, "h coords");
    assert_eq!(c.rows[0].text, "(10, -20)");
    assert_eq!(c.rows[0].prefix, "(10, ");
    assert_eq!(c.rows[0].color, PanelColor::CoordNegative);
    assert_eq!(c.rows[0].part1_color, PanelColor::CoordPositive);
    cfg.coords_display = "block".into();
    assert_eq!(fill(&cfg, "coords").rows[1].text, "(-172, 340)");
    assert_eq!(fill(&cfg, "nether").rows[1].text, "(-22, 42)");
    let c = fill(&cfg, "certainty");
    assert_eq!(c.rows[1].text, "7.0%");
    assert_eq!(c.rows[1].color, PanelColor::Certainty(0.07f64.to_bits()));
    assert_eq!(fill(&cfg, "distance").rows[0].text, "500");
    let c = fill(&cfg, "angle");
    assert!(c.left_align);
    assert_eq!(c.rows[0].text, "-42.50 (-> 3.0)");
    assert!(c.rows[0].center_on_part1);
    assert_eq!(c.rows[1].text, "-42.00", "the last throw stands in");
    assert_eq!(fill(&cfg, "junk").rows[0].text, "");
    assert_eq!(table_rows(&vec![fill(&cfg, "angle")], base, true), 2);
    assert_eq!(table_rows(&Vec::new(), 0, true), 1);
    assert_eq!(table_rows(&Vec::new(), 0, false), 0);
}

#[test]
fn angle_column_shows_the_last_throw() {
    let mut d = found();
    let mut cfg = config();
    cfg.show_throw_details = false;
    cfg.show_direction_to_stronghold = false;
    d.correction_increments_151 = -2;
    let c = build_column(&column("angle"), &cfg, &d, 1, &texts(), "-42.00", "-41.99");
    assert_eq!(c.rows.len(), 2);
    assert_eq!(c.rows[0].text, "-42.50");
    assert_eq!(c.rows[1].text, "-41.99-2");
    assert_eq!(c.rows[1].color, PanelColor::SubpixelNegative);
    d.throws[0].has_correction_increments = true;
    d.throws[0].correction_increments = 0;
    let c = build_column(&column("angle"), &cfg, &d, 1, &texts(), "-42.00", "-41.99");
    assert_eq!(c.rows[1].text, "-41.99");
    assert_eq!(c.rows[1].color, PanelColor::Text);
    let empty = NinjabrainData::default();
    let c = build_column(&column("angle"), &cfg, &empty, 0, &Vec::new(), "", "");
    assert_eq!(c.rows.len(), 1);
    assert_eq!(c.rows[0].text, "-");
}

#[test]
fn rows_follow_the_settings() {
    let d = found();
    let mut cfg = config();
    cfg.shown_predictions = 1;
    assert_eq!(result_rows(&cfg, &d), (1, 1));
    cfg.shown_predictions = 99;
    cfg.always_show = true;
    assert_eq!(result_rows(&cfg, &d), (5, 2));
    cfg.shown_predictions = -3;
    assert_eq!(result_rows(&cfg, &d), (1, 1));
    assert_eq!(throws_row_count(&cfg, &d), 3);
    cfg.eye_throw_rows = 0;
    assert_eq!(throws_row_count(&cfg, &d), 1);
    cfg.show_throw_details = false;
    assert_eq!(column_samples(&cfg, "angle"), vec!["-359.99 (-> 359.0)", "-359.99+999"]);
    assert_eq!(column_samples(&cfg, "coords"), vec!["(-999, -999)"]);
    assert!(column_samples(&cfg, "junk").is_empty());
}

#[test]
fn throws_are_listed() {
    let mut d = found();
    let t = ThrowTexts {
        x: "12.30".into(),
        z: "-45.60".into(),
        angle: "-42.00".into(),
        error: "0.0020".into(),
    };
    let text = |d: &NinjabrainData, row: usize| -> Vec<String> {
        throw_row_cells(d, row, &t).into_iter().map(|c| c.text).collect()
    };
    assert_eq!(text(&d, 0), vec!["12.30", "-45.60", "-42.00", "0.0020"]);
    assert_eq!(text(&d, 1), vec!["", "", "", ""]);
    d.correction_increments_151 = 4;
    d.throws[0].has_position = false;
    d.throws[0].error = 1e-9f64.to_bits();
    assert_eq!(text(&d, 0), vec!["-", "-", "-42.00+4", "-"]);
    d.throws[0].error = (-1.1e-9f64).to_bits();
    assert_eq!(text(&d, 0)[3], "0.0020");
}

#[test]
fn sections_stand_in_order() {
    let mut cfg = config();
    let mut d = found();
    assert_eq!(panel_sections(&cfg, &d), vec![Section::Results, Section::Messages, Section::Throws]);
    cfg.information_messages_placement = "top".into();
    cfg.show_throw_details = false;
    d.result_type = "FAILED".into();
    assert_eq!(panel_sections(&cfg, &d), vec![Section::Messages, Section::Failure]);
    cfg.information_messages_placement = "bottom".into();
    d.result_type = "NONE".into();
    d.blind.enabled = true;
    d.blind.has_result = true;
    assert_eq!(panel_sections(&cfg, &d), vec![Section::Blind, Section::Messages]);
    d.blind.has_result = false;
    d.information_messages.clear();
    assert_eq!(panel_sections(&cfg, &d), vec![Section::Results]);
}

#[test]
fn flow_and_height_agree() {
    let counts = PanelCounts {
        messages: 3,
        result_rows: 2,
        failure_lines: 2,
        blind_lines: 3,
        throw_rows: 4,
    };
    let value = |l: Length| -> i64 {
        match l {
            Length::MessageRow(i) => 100 + i as i64,
            Length::MessageGap => 7,
            Length::Pixel => 1,
            Length::TextLine => 30,
            Length::DetailRow => 40,
            Length::FailureGap => 3,
            Length::BlindGap => 5,
            _ => 11,
        }
    };
    let all = [
        Section::Messages,
        Section::Results,
        Section::Failure,
        Section::Blind,
        Section::Throws,
    ];
    for s in all {
        let flow = panel_flow(&vec![s], counts);
        assert_eq!(flow[0], FlowStep::Advance(Length::PaddingTop));
        let way: i64 = flow[1..]
            .iter()
            .map(|f| match f {
                FlowStep::Advance(l) => value(*l),
                FlowStep::Draw(_) => 0,
            })
            .sum();
        let kept: i64 =
            section_height(s, counts).iter().map(|(l, n)| value(*l) * *n as i64).sum();
        let more = if s == Section::Throws { value(Length::DetailRow) } else { 0 };
        assert_eq!(way, kept + more, "{s:?}");
    }
    let flow = panel_flow(&vec![Section::Results], counts);
    let dividers = flow
        .iter()
        .filter(|f| matches!(f, FlowStep::Draw(PanelItem::RowDivider(_))))
        .count();
    assert_eq!(dividers, 1, "there is no line below the last row");
}

#[test]
fn icons_are_chosen() {
    let mut cfg = config();
    let mut d = found();
    assert_eq!(boat_icon(&cfg, &d), Some(2));
    d.boat_state = "NONE".into();
    assert_eq!(boat_icon(&cfg, &d), None);
    cfg.always_show_boat = true;
    assert_eq!(boat_icon(&cfg, &d), Some(0));
    cfg.show_boat_state_in_top_bar = false;
    assert_eq!(boat_icon(&cfg, &d), None);
    let m = |kind: &str, severity: &str| NbbInfoMessage {
        severity: severity.into(),
        msg_type: kind.into(),
        message: String::new(),
    };
    assert_eq!(message_icon(&m("PORTAL_LOCKED", "INFO")), 6, "capitals count too");
    assert_eq!(message_icon(&m("x", "ERROR")), 5);
    assert_eq!(message_icon(&m("x", "INFO")), 4);
    let white = icon_picture(b"no picture");
    assert_eq!((white.pixels, white.width, white.height), (vec![255; 4], 1, 1));
    let mut png = Vec::new();
    let img = image::RgbaImage::from_pixel(2, 1, image::Rgba([1, 2, 3, 4]));
    image::DynamicImage::ImageRgba8(img)
        .write_to(&mut std::io::Cursor::new(&mut png), image::ImageFormat::Png)
        .unwrap();
    let icon = icon_picture(&png);
    assert_eq!((icon.width, icon.height), (2, 1));
    assert_eq!(icon.pixels, vec![1, 2, 3, 4, 1, 2, 3, 4]);
}

#[test]
fn blind_travel_and_failures_are_told() {
    let mut d = NinjabrainData::default();
    let n = BlindNumbers {
        x: 12,
        z: -34,
        chance: "22.0%".into(),
        threshold: 400,
        direction: 90,
        distance: 40,
    };
    assert!(build_blind_lines(&d, &n).is_empty());
    d.blind.enabled = true;
    d.blind.has_result = true;
    d.blind.evaluation = "HIGHROLL_GOOD".into();
    d.blind.highroll_probability = 0.22f64.to_bits();
    let lines = build_blind_lines(&d, &n);
    assert_eq!(lines.len(), 3);
    assert_eq!(lines[0][0].text, "Blind coords (12, -34) are ");
    assert_eq!(lines[0][1].text, "good for highroll");
    assert_eq!(lines[0][1].color, PanelColor::Blind(4));
    assert_eq!(lines[1][0].color, PanelColor::HighRoll(0.22f64.to_bits()));
    assert_eq!(lines[1][1].text, " chance of <400 block blind");
    assert_eq!(lines[2][0].text, "Head 90\u{b0}, 40 blocks away, for better coords");
    d.blind.evaluation = "EXCELLENT".into();
    assert_eq!(build_blind_lines(&d, &n).len(), 2);
    let failed = failure_lines();
    assert_eq!(failed[0][0].text, "Could not determine the stronghold chunk.");
    assert_eq!(failed.len(), 2);
}

#[test]
fn words_are_wrapped() {
    let text = "one two three four five six";
    let words = run_words(text);
    assert_eq!(words, vec!["one ", "two ", "three ", "four ", "five ", "six"]);
    assert!(run_words("").is_empty());
    assert_eq!(run_words("  a "), vec![" ", " ", "a "]);
    let pieces: Vec<WrapPiece> = words
        .iter()
        .enumerate()
        .map(|(i, w)| WrapPiece { text: w.clone(), color: if i < 4 { 0 } else { 1 } })
        .collect();
    let lines = wrap_runs(&pieces, &vec![false, false, true, false, false, true]);
    assert_eq!(lines.len(), 3);
    assert_eq!(lines[0].len(), 1);
    assert_eq!(lines[0][0].text, "one two ");
    assert_eq!(lines[1].len(), 2, "colors split a line");
    let joined: String = lines.iter().flatten().map(|p| p.text.as_str()).collect();
    assert_eq!(joined, text);
    assert_eq!(wrap_runs(&Vec::new(), &Vec::new()).len(), 1);
}

#[test]
fn cells_are_split_at_a_width() {
    assert_eq!(
        split_cell("abc", &vec![false, true, true]),
        ("a".to_string(), "bc".to_string())
    );
    assert_eq!(split_cell("abc", &vec![false; 3]), ("abc".to_string(), String::new()));
}

#[test]
fn drawings_are_kept() {
    let parts = |n: usize| vec![KeyPart::Count(n), KeyPart::Text("a".to_string())];
    let mut c: PanelCache<u8> = PanelCache::new();
    assert!(c.needs_redraw(&Vec::new()));
    assert!(c.picture().is_none());
    c.drew(parts(5), 7);
    assert!(!c.needs_redraw(&parts(5)) && c.needs_redraw(&parts(6)));
    assert!(c.needs_redraw(&vec![KeyPart::Count(5)]));
    assert!(c.needs_redraw(&vec![KeyPart::Number(5), KeyPart::Text("a".to_string())]));
    assert_eq!(c.picture(), Some(&7));
    c.forget();
    assert!(c.needs_redraw(&parts(5)));
    assert!(c.picture().is_none());
    let mut d = found();
    let a = state_parts("cfg", &d, 10, 20);
    d.last_update = Some(9);
    let b = state_parts("cfg", &d, 10, 20);
    assert_eq!(a.len(), 14 + 2 * 4 + 2 * 3 + 9 + 3 + 11);
    assert_eq!(a, b, "a new time alone is not drawn");
    assert!(matches!(&a[0], KeyPart::Text(t) if t == "cfg"));
    assert!(matches!(a[1], KeyPart::Number(10)));
    assert!(matches!(a[3], KeyPart::Count(2)));
    assert!(matches!(a[14], KeyPart::Number(10)));
}

#[test]
fn changes_are_drawn() {
    let before = state_parts("cfg", &found(), 10, 20);
    assert_ne!(state_parts("cfh", &found(), 10, 20), before);
    assert_ne!(state_parts("cfg", &found(), 11, 20), before);
    assert_ne!(state_parts("cfg", &found(), 10, 21), before);
    let changes: [fn(&mut NinjabrainData); 33] = [
        |d| d.result_type.push('X'),
        |d| d.valid_prediction = !d.valid_prediction,
        |d| d.prediction_count += 1,
        |d| d.predictions[1].chunk_x += 1,
        |d| d.predictions[1].chunk_z += 1,
        |d| d.predictions[1].certainty += 1,
        |d| d.predictions[1].overworld_distance += 1,
        |d| d.prediction_angles[1].actual_angle += 1,
        |d| d.prediction_angles[1].needed_correction += 1,
        |d| d.prediction_angles[1].valid = !d.prediction_angles[1].valid,
        |d| d.player_in_nether = !d.player_in_nether,
        |d| d.eye_count += 1,
        |d| d.throws[0].x_in_overworld += 1,
        |d| d.throws[0].z_in_overworld += 1,
        |d| d.throws[0].has_position = !d.throws[0].has_position,
        |d| d.throws[0].angle_without_correction += 1,
        |d| d.throws[0].error += 1,
        |d| d.throws[0].correction_increments += 1,
        |d| d.throws[0].has_correction_increments = !d.throws[0].has_correction_increments,
        |d| d.correction_increments_151 += 1,
        |d| d.last_angle += 1,
        |d| d.last_angle_without_correction += 1,
        |d| d.information_messages[0].severity.push('X'),
        |d| d.information_messages[0].msg_type.push('X'),
        |d| d.information_messages[0].message.push('X'),
        |d| d.information_messages.clear(),
        |d| d.boat_state.push('X'),
        |d| d.blind.enabled = !d.blind.enabled,
        |d| d.blind.evaluation.push('X'),
        |d| d.blind.z_in_nether += 1,
        |d| d.blind.improve_direction += 1,
        |d| d.blind.improve_distance += 1,
        |d| d.blind.highroll_threshold += 1,
    ];
    for (i, change) in changes.iter().enumerate() {
        let mut d = found();
        change(&mut d);
        assert_ne!(state_parts("cfg", &d, 10, 20), before, "change {i}");
    }
}

/// A frame whose picture is a blind coordinate.
fn show(c: &mut PanelCache<u64>, shown: bool, d: &NinjabrainData, width: u32) -> (bool, Option<u64>) {
    match c.step(shown, "cfg", d, width, 20) {
        PanelStep::Hide => (false, None),
        PanelStep::Keep => (false, c.picture().copied()),
        PanelStep::Draw(parts) => {
            c.drew(parts, d.blind.z_in_nether);
            (true, c.picture().copied())
        }
    }
}

#[test]
fn the_shown_panel_is_current() {
    let mut c = PanelCache::new();
    let mut d = found();
    d.blind.z_in_nether = 10.0f64.to_bits();
    assert_eq!(show(&mut c, true, &d, 10), (true, Some(10.0f64.to_bits())));
    assert_eq!(show(&mut c, true, &d, 10), (false, Some(10.0f64.to_bits())));
    d.last_update = Some(5);
    assert_eq!(show(&mut c, true, &d, 10), (false, Some(10.0f64.to_bits())));
    d.blind.z_in_nether = 99.0f64.to_bits();
    assert_eq!(show(&mut c, true, &d, 10), (true, Some(99.0f64.to_bits())));
    assert_eq!(show(&mut c, true, &d, 11), (true, Some(99.0f64.to_bits())));
    assert_eq!(show(&mut c, false, &d, 11), (false, None));
    assert_eq!(show(&mut c, true, &d, 11), (true, Some(99.0f64.to_bits())), "a hidden panel is forgotten");
}

#[test]
fn what_is_not_shown_is_not_drawn_anew() {
    let before = state_parts("cfg", &found(), 10, 20);
    let changes: [fn(&mut NinjabrainData); 5] = [
        |d| d.last_update = Some(9),
        |d| d.throws[0].throw_type.push('X'),
        |d| d.blind.average_distance += 1,
        |d| d.stronghold_x += 1,
        |d| d.player_x += 1,
    ];
    for change in changes {
        let mut d = found();
        change(&mut d);
        assert_eq!(state_parts("cfg", &d, 10, 20), before);
        assert_eq!(panel_sections(&config(), &d), panel_sections(&config(), &found()));
    }
}

#[test]
fn font_paths_may_name_the_home_directory() {
    assert_eq!(font_file("~/f.ttf", Some("/home/u")), "/home/u/f.ttf");
    assert_eq!(font_file("~/f.ttf", None), "~/f.ttf");
    assert_eq!(font_file("/f.ttf", Some("/home/u")), "/f.ttf");
}
