use std::io::Cursor;

use tuxinjector::cursor_image::{
    cursor_candidates, cursor_or_crosshair, decode_ico_dib, gen_crosshair, is_icon_file,
    parse_ico_cur, picture_cursor, resize_job, resolve_cursor_path, scale_to, CursorImage, Frame,
    Picture, ScaleFilter,
};
use tuxinjector::cursor_system::{
    cursor_shape, select_cursor_state, CursorConfig, CursorKey, CursorStep, CursorSystem,
    CursorsConfig,
};
use tuxinjector::single::{at_least, scale};

// A .cur file: directory, one entry, and a 2x2 bitmap of one bit per pixel that
// holds all four combinations of the two masks.
fn mono_cur_fixture() -> Vec<u8> {
    let w = 2u32;
    let h = 2u32;
    let mut dib = Vec::new();
    dib.extend_from_slice(&40u32.to_le_bytes());
    dib.extend_from_slice(&(w as i32).to_le_bytes());
    dib.extend_from_slice(&((h * 2) as i32).to_le_bytes());
    dib.extend_from_slice(&1u16.to_le_bytes());
    dib.extend_from_slice(&1u16.to_le_bytes());
    dib.extend_from_slice(&[0u8; 24]);
    dib.extend_from_slice(&[0, 0, 0, 0, 255, 255, 255, 0]);
    dib.extend_from_slice(&[0b0100_0000, 0, 0, 0]);
    dib.extend_from_slice(&[0b0100_0000, 0, 0, 0]);
    dib.extend_from_slice(&[0b0000_0000, 0, 0, 0]);
    dib.extend_from_slice(&[0b1100_0000, 0, 0, 0]);
    cur_file(w as u8, h as u8, 1, 0, &dib)
}

fn cur_file(w: u8, h: u8, hot_x: u16, hot_y: u16, payload: &[u8]) -> Vec<u8> {
    let mut cur = Vec::new();
    cur.extend_from_slice(&0u16.to_le_bytes());
    cur.extend_from_slice(&2u16.to_le_bytes());
    cur.extend_from_slice(&1u16.to_le_bytes());
    cur.push(w);
    cur.push(h);
    cur.push(0);
    cur.push(0);
    cur.extend_from_slice(&hot_x.to_le_bytes());
    cur.extend_from_slice(&hot_y.to_le_bytes());
    cur.extend_from_slice(&(payload.len() as u32).to_le_bytes());
    cur.extend_from_slice(&22u32.to_le_bytes());
    cur.extend_from_slice(payload);
    cur
}

fn png_of(img: image::RgbaImage) -> Vec<u8> {
    let mut png = Vec::new();
    image::DynamicImage::ImageRgba8(img)
        .write_to(&mut Cursor::new(&mut png), image::ImageFormat::Png)
        .unwrap();
    png
}

#[test]
fn cur_mono_decode_and_hotspot() {
    let img = parse_ico_cur(&mono_cur_fixture()).expect("parse");
    assert_eq!((img.w, img.h), (2, 2));
    assert_eq!(img.file_hotspot, Some((1, 0)));
    let px = |x: usize, y: usize| -> [u8; 4] {
        let i = (y * 2 + x) * 4;
        img.rgba[i..i + 4].try_into().unwrap()
    };
    assert_eq!(px(0, 0), [0, 0, 0, 0], "AND=1 XOR=0 = transparent");
    assert_eq!(px(1, 0), [255, 255, 255, 255], "AND=1 XOR=1 (invert) ~ white");
    assert_eq!(px(0, 1), [0, 0, 0, 255], "AND=0 XOR=0 = black");
    assert_eq!(px(1, 1), [255, 255, 255, 255], "AND=0 XOR=1 = white");
}

#[test]
fn cur_png_payload() {
    let img = image::RgbaImage::from_pixel(4, 4, image::Rgba([255, 0, 0, 255]));
    let cur = cur_file(4, 4, 2, 3, &png_of(img));
    let img = parse_ico_cur(&cur).expect("parse");
    assert_eq!((img.w, img.h), (4, 4));
    assert_eq!(img.file_hotspot, Some((2, 3)));
    assert_eq!(&img.rgba[0..4], &[255, 0, 0, 255]);
}

#[test]
fn scale_doubles_hotspot() {
    let img = CursorImage {
        rgba: vec![255; 32 * 32 * 4],
        w: 32,
        h: 32,
        file_hotspot: Some((8, 16)),
    };
    let out = scale_to(img, 64);
    assert_eq!((out.w, out.h), (64, 64));
    assert_eq!(out.file_hotspot, Some((16, 32)));
    assert_eq!(out.rgba.len(), 64 * 64 * 4);
}

#[test]
fn crosshair_has_visible_pixels() {
    let img = gen_crosshair(32);
    assert_eq!((img.w, img.h), (32, 32));
    assert!(img.rgba.chunks(4).any(|p| p[3] == 255));
    assert_eq!(img.file_hotspot, Some((16, 16)));
}

#[test]
fn crosshair_center_is_opaque() {
    for size in [1u32, 2, 7, 16, 33, 64] {
        let img = gen_crosshair(size);
        let (x, y) = img.file_hotspot.unwrap();
        let i = ((y * img.w + x) * 4) as usize;
        assert_eq!(img.rgba[i + 3], 255, "{size}");
    }
}

#[test]
fn nearest_scaling_repeats_pixels() {
    // two pixels, left red and right blue, over two rows
    let row = [255u8, 0, 0, 255, 0, 0, 255, 255];
    let rgba: Vec<u8> = row.iter().chain(row.iter()).copied().collect();
    let out = scale_to(CursorImage { rgba, w: 2, h: 2, file_hotspot: None }, 8);
    assert_eq!((out.w, out.h), (8, 8));
    for y in 0..8usize {
        for x in 0..8usize {
            let i = (y * 8 + x) * 4;
            let want: &[u8] = if x < 4 { &row[0..4] } else { &row[4..8] };
            assert_eq!(&out.rgba[i..i + 4], want);
        }
    }
    assert_eq!(out.file_hotspot, None);
}

#[test]
fn shrinking_is_smooth_and_enlarging_is_not() {
    let img = |w: u32, h: u32| CursorImage {
        rgba: vec![7; (w * h * 4) as usize],
        w,
        h,
        file_hotspot: Some((1, 1)),
    };
    let job = resize_job(img(4, 2), 3).unwrap();
    assert_eq!((job.w, job.h, job.size, job.rgba.len()), (4, 2, 3, 32));
    assert!(job.filter == ScaleFilter::Lanczos3);
    assert!(resize_job(img(2, 2), 3).unwrap().filter == ScaleFilter::Nearest);
    assert_eq!(resize_job(img(2, 2), 0).unwrap().size, 1);
    assert!(resize_job(img(3, 3), 3).is_none());
    let short = CursorImage { rgba: vec![0; 15], w: 2, h: 2, file_hotspot: None };
    assert!(resize_job(short, 3).is_none());
    let small = scale_to(img(4, 4), 2);
    assert_eq!(small.rgba, vec![7; 16], "one colour stays one colour");
    assert_eq!(small.file_hotspot, Some((1, 1)), "halves round up");
}

#[test]
fn a_cursor_that_cannot_be_loaded_is_a_crosshair() {
    let drawn = cursor_or_crosshair(None, 32);
    assert_eq!(drawn.rgba, gen_crosshair(32).rgba);
    assert_eq!(drawn.file_hotspot, Some((16, 16)));
    let loaded = CursorImage { rgba: vec![9; 16], w: 2, h: 2, file_hotspot: None };
    let shown = cursor_or_crosshair(Some(loaded), 4);
    assert_eq!((shown.w, shown.h), (4, 4));
    assert_eq!(shown.rgba, vec![9; 64]);
    // a buffer that is too short is empty, not a crosshair
    let short = CursorImage { rgba: vec![9; 15], w: 2, h: 2, file_hotspot: None };
    assert_eq!(cursor_or_crosshair(Some(short), 4).w, 0);
}

#[test]
fn scaling_agrees_with_single_precision() {
    for h in [0u32, 1, 3, 8, 16, 31, 100, 255] {
        for size in [1u32, 8, 24, 32, 64, 96, 320] {
            for dim in [1u32, 2, 3, 16, 32, 48, 255, 256] {
                let want = (h as f32 * size as f32 / dim as f32).round() as u32;
                assert_eq!(scale(h, size, dim), want, "{h} {size} {dim}");
            }
        }
    }
    assert!(at_least(5, 5) && at_least(6, 5) && !at_least(4, 5));
}

#[test]
fn largest_entry_is_taken() {
    let small = png_of(image::RgbaImage::from_pixel(2, 2, image::Rgba([1, 2, 3, 255])));
    let large = png_of(image::RgbaImage::from_pixel(4, 4, image::Rgba([9, 8, 7, 255])));
    let mut ico = Vec::new();
    ico.extend_from_slice(&0u16.to_le_bytes());
    ico.extend_from_slice(&1u16.to_le_bytes());
    ico.extend_from_slice(&2u16.to_le_bytes());
    let first = 6 + 2 * 16;
    let parts = [(2u8, &small, first), (4u8, &large, first + small.len())];
    for (side, data, at) in parts {
        ico.extend_from_slice(&[side, side, 0, 0]);
        ico.extend_from_slice(&1u16.to_le_bytes());
        ico.extend_from_slice(&32u16.to_le_bytes());
        ico.extend_from_slice(&(data.len() as u32).to_le_bytes());
        ico.extend_from_slice(&(at as u32).to_le_bytes());
    }
    ico.extend_from_slice(&small);
    ico.extend_from_slice(&large);
    let img = parse_ico_cur(&ico).expect("parse");
    assert_eq!((img.w, img.h), (4, 4));
    assert_eq!(&img.rgba[0..4], &[9, 8, 7, 255]);
    assert_eq!(img.file_hotspot, None, "an icon has no hotspot");
}

#[test]
fn broken_files_have_no_picture() {
    assert!(parse_ico_cur(&[]).is_none());
    assert!(parse_ico_cur(&[0, 0, 9, 0, 1, 0]).is_none());
    let mut cut = mono_cur_fixture();
    cut.truncate(40);
    assert!(parse_ico_cur(&cut).is_none());
    assert!(parse_ico_cur(&cur_file(2, 2, 0, 0, b"\x89PNG\r\n\x1a\nbroken")).is_none());
    assert!(decode_ico_dib(&[0; 39]).is_none());
}

#[test]
fn icon_files_are_told_by_their_name() {
    assert!(is_icon_file("cur") && is_icon_file("ICO"));
    assert!(!is_icon_file("png") && !is_icon_file(""));
}

#[test]
fn pictures_become_cursors() {
    assert!(picture_cursor(None).is_none());
    assert!(picture_cursor(Some(Picture::Animated(Vec::new()))).is_none());
    let still = Frame { pixels: vec![7; 16], width: 2, height: 2 };
    let img = picture_cursor(Some(Picture::Still(still))).unwrap();
    assert_eq!((img.w, img.h, img.file_hotspot), (2, 2, None));
    let first = Frame { pixels: vec![1; 4], width: 1, height: 1 };
    let second = Frame { pixels: vec![2; 4], width: 1, height: 1 };
    let img = picture_cursor(Some(Picture::Animated(vec![first, second]))).unwrap();
    assert_eq!(img.rgba, vec![1; 4]);
}

#[test]
fn cursor_files_are_searched_in_order() {
    let names = cursor_candidates("arrow", "/c");
    let mut present = vec![false; names.len()];
    assert_eq!(resolve_cursor_path("arrow", "/c", &present), None);
    let last = names.len() - 1;
    present[last] = true;
    assert_eq!(resolve_cursor_path("arrow", "/c", &present), Some(names[last].clone()));
    present[0] = true;
    assert_eq!(resolve_cursor_path("arrow", "/c", &present), Some(names[0].clone()));
}

// ---------------------------------------------------------------------------

fn cursor(name: &str) -> CursorConfig {
    CursorConfig { cursor_name: name.to_string(), cursor_size: 32, hotspot_x: 0, hotspot_y: 0 }
}

fn cfg(enabled: bool) -> CursorsConfig {
    CursorsConfig { enabled, title: cursor("t"), wall: cursor("w"), ingame: cursor("i") }
}

#[test]
fn disabled_selects_nothing() {
    assert!(select_cursor_state(&cfg(false), "title", false, false).is_none());
}

#[test]
fn captured_hides_unless_gui_open() {
    let c = cfg(true);
    assert!(select_cursor_state(&c, "inworld,cursor_grabbed", true, false).is_none());
    let sel = select_cursor_state(&c, "inworld,cursor_grabbed", true, true).unwrap();
    assert_eq!(sel.cursor_name, "i");
}

#[test]
fn toolscreen_bucketing() {
    let c = cfg(true);
    assert_eq!(select_cursor_state(&c, "title", false, false).unwrap().cursor_name, "t");
    assert_eq!(select_cursor_state(&c, "wall", false, false).unwrap().cursor_name, "w");
    for gs in ["waiting", "generating", "inworld,cursor_free", "inworld,cursor_grabbed", "", "junk"] {
        assert_eq!(select_cursor_state(&c, gs, false, false).unwrap().cursor_name, "i", "{gs}");
    }
}

#[test]
fn empty_name_passes_through() {
    let mut c = cfg(true);
    c.title.cursor_name.clear();
    assert!(select_cursor_state(&c, "title", false, false).is_none());
    assert!(select_cursor_state(&c, "wall", false, false).is_some());
}

#[test]
fn cursors_are_made_once_and_restored() {
    let c = cfg(true);
    let mut s = CursorSystem::new();
    let key = CursorKey::of(&c.title);
    assert!(matches!(s.tick(&c, "title", false, false, true), CursorStep::Create { .. }));
    s.created(&key, 41);
    match s.tick(&c, "title", false, false, true) {
        CursorStep::Install { handle, .. } => assert_eq!(handle, 41),
        _ => panic!("the cursor is there"),
    }
    s.installed(CursorKey::of(&c.title));
    assert!(matches!(s.tick(&c, "title", false, false, true), CursorStep::Keep));
    // the game's own cursor is kept for later, and ours stays
    assert_eq!(s.on_game_set_cursor(7), 41);
    match s.restore() {
        CursorStep::Restore { set, destroy } => {
            assert_eq!(set, Some(7));
            assert_eq!(destroy, vec![41]);
        }
        _ => panic!("restored"),
    }
    match s.restore() {
        CursorStep::Restore { set, destroy } => {
            assert_eq!(set, None);
            assert!(destroy.is_empty());
        }
        _ => panic!("nothing is left"),
    }
    assert_eq!(s.on_game_set_cursor(9), 9);
}

#[test]
fn missing_functions_are_told_once() {
    let c = cfg(true);
    let mut s = CursorSystem::new();
    match s.tick(&c, "title", false, false, false) {
        CursorStep::Unavailable { warn } => assert!(warn),
        _ => panic!("no functions"),
    }
    match s.tick(&c, "title", false, false, false) {
        CursorStep::Unavailable { warn } => assert!(!warn),
        _ => panic!("no functions"),
    }
}

#[test]
fn cursor_shapes_need_a_whole_picture() {
    let img = CursorImage { rgba: vec![0; 16], w: 2, h: 2, file_hotspot: Some((1, 0)) };
    let s = cursor_shape(&img, (5, 5)).unwrap();
    assert_eq!((s.width, s.height, s.hotspot_x, s.hotspot_y), (2, 2, 1, 0));
    let img = CursorImage { rgba: vec![0; 16], w: 2, h: 2, file_hotspot: None };
    let s = cursor_shape(&img, (5, 6)).unwrap();
    assert_eq!((s.hotspot_x, s.hotspot_y), (5, 6));
    let bad = CursorImage { rgba: vec![0; 3], w: 2, h: 2, file_hotspot: None };
    assert!(cursor_shape(&bad, (0, 0)).is_none());
}
