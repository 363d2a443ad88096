use tuxinjector::nbb_data::NbbInfoMessage;
use tuxinjector::nbb_format::{
    blind_evaluation, extract_first_color_span, extract_leading_integers,
    format_angle_with_direction, format_coords, format_info_message, format_subpixel,
    normalize_hex_color, parse_hex_color, parse_markup_to_runs, translate_markup, TextRun,
};

#[test]
fn coords_sign_split() {
    let pos = [1.0f32, 1.0, 1.0, 1.0];
    let neg = [1.0f32, 0.45, 0.45, 1.0];
    let (t, col, split, _) = format_coords(5, 7, pos, neg);
    assert_eq!(t, "(5, 7)");
    assert_eq!(col, pos);
    assert!(split.is_empty());
    let (_, col, split, _) = format_coords(-5, -7, pos, neg);
    assert_eq!(col, neg);
    assert!(split.is_empty());
    let (t, col, split, p1) = format_coords(-5, 7, pos, neg);
    assert_eq!(t, "(-5, 7)");
    assert_eq!(split, "(-5, ");
    assert_eq!(p1, neg, "x part negative");
    assert_eq!(col, pos, "z part positive");
    let (_, col, split, p1) = format_coords(5, -7, pos, neg);
    assert_eq!(split, "(5, ");
    assert_eq!(p1, pos);
    assert_eq!(col, neg);
}

fn with_direction(angle: f64, correction: f64) -> (String, String) {
    format_angle_with_direction(
        &format!("{angle:.2}"),
        &format!("{:.1}", correction.abs()),
        correction > 0.0,
    )
}

#[test]
fn angle_and_subpixel_formats() {
    let (t, base) = with_direction(-42.514, 3.21);
    assert_eq!(t, "-42.51 (-> 3.2)");
    assert_eq!(base, "-42.51");
    let (t, _) = with_direction(10.0, -0.5);
    assert_eq!(t, "10.00 (<- 0.5)");
    let angle = format!("{:.2}", -42.5);
    assert_eq!(format_subpixel(&angle, 3), "-42.50+3");
    assert_eq!(format_subpixel(&angle, -2), "-42.50-2");
    assert_eq!(format_subpixel(&angle, 0), "-42.50");
}

#[test]
fn markup_runs() {
    let runs = parse_markup_to_runs("hello <span style=\"color:#FF0000;\">red</span> world");
    assert_eq!(runs.len(), 3);
    assert_eq!(runs[0], TextRun { text: "hello ".into(), color: None });
    assert_eq!(runs[1], TextRun { text: "red".into(), color: Some([255, 0, 0]) });
    assert_eq!(runs[2], TextRun { text: " world".into(), color: None });
    let runs = parse_markup_to_runs("a <span style=\"color:#00FF00;\">b");
    assert_eq!(runs.len(), 1);
    assert_eq!(runs[0].text, "a <span style=\"color:#00FF00;\">b");
    let runs = parse_markup_to_runs("ab<span>cd</span>");
    assert_eq!(runs.len(), 1);
    assert_eq!(runs[0].text, "abcd");
}

fn msg(t: &str, m: &str) -> NbbInfoMessage {
    NbbInfoMessage { severity: "INFO".into(), msg_type: t.into(), message: m.into() }
}

#[test]
fn translate_known_types() {
    assert!(translate_markup(&msg("MISMEASURE", "x")).starts_with("Detected unusually large"));
    let t = translate_markup(&msg("NEXT_THROW_DIRECTION", "12 and -34 blah"));
    assert_eq!(
        t,
        "Go left 12 blocks, or right -34 blocks, for ~95% certainty after next measurement."
    );
    let t = translate_markup(&msg(
        "COMBINED_CERTAINTY",
        "120 -340 <span style=\"color:#00ce29;\">88%</span>",
    ));
    assert!(t.contains("Nether coords (120, -340)"));
    assert!(t.contains("<span style=\"color:#00CE29;\">88%</span>"));
    assert_eq!(translate_markup(&msg("OTHER", "raw")), "raw");
}

#[test]
fn blind_buckets() {
    assert_eq!(blind_evaluation("EXCELLENT"), (4, "excellent"));
    assert_eq!(blind_evaluation("EXCELLENT").0 as f64 / 4.0, 1.0);
    assert_eq!(blind_evaluation("NOT_IN_RING").1, "not in any ring");
    assert_eq!(blind_evaluation("???").1, "unknown");
}

#[test]
fn colors_are_read_and_made_regular() {
    assert_eq!(parse_hex_color("#0a0B0c"), Some([10, 11, 12]));
    assert_eq!(parse_hex_color("#12"), None);
    assert_eq!(parse_hex_color("#gg0000"), None);
    let c = normalize_hex_color("#00ce29");
    assert_eq!(c, "#00CE29");
    assert_eq!(normalize_hex_color(&c), c);
    assert_eq!(normalize_hex_color("junk"), "#00CE29");
}

#[test]
fn numbers_and_spans_are_found() {
    assert_eq!(extract_leading_integers("a 12, -3 and 4", 2), Some(vec![12, -3]));
    assert_eq!(extract_leading_integers("a 12", 2), None);
    assert_eq!(
        extract_first_color_span("x <span style=\"color:#010203;\">y</span>"),
        Some(("#010203".to_string(), "y".to_string()))
    );
    assert_eq!(extract_first_color_span("plain"), None);
}

#[test]
fn messages_become_runs() {
    let runs = format_info_message(&msg("OTHER", "a <span style=\"color:#FFFFFF;\">b</span>"));
    assert_eq!(runs.len(), 2);
    assert_eq!(runs[1], TextRun { text: "b".into(), color: Some([255, 255, 255]) });
}
