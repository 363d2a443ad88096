use tuxinjector::cursor_trail::{
    sprite_accepted, stamp_steps, CursorTrail, MAX_STAMPS, MAX_STAMPS_PER_FRAME,
};

type Point = (f32, f32);

fn length(a: Point, b: Point) -> f32 {
    ((b.0 - a.0).powi(2) + (b.1 - a.1).powi(2)).sqrt()
}

/// Feeds a pointer sample and lays stamps on a straight line.
fn advance(
    trail: &mut CursorTrail<Point, Point>,
    pos: Point,
    now_ms: u64,
    spacing: i32,
    fb: (u32, u32),
) {
    let diagonal = length((0.0, 0.0), (fb.0 as f32, fb.1 as f32));
    let jumped = match trail.last_sample() {
        Some(last) => length(last, pos) > diagonal,
        None => false,
    };
    if let Some(s) = trail.sample(pos, now_ms, fb, jumped) {
        let wanted = (length(s.from, s.to) / spacing.max(1) as f32) as usize;
        let steps = stamp_steps(wanted);
        let shapes: Vec<Point> = (1..=steps)
            .map(|i| {
                let t = i as f32 / steps as f32;
                (s.from.0 + (s.to.0 - s.from.0) * t, s.from.1 + (s.to.1 - s.from.1) * t)
            })
            .collect();
        trail.lay(&shapes, now_ms);
    }
}

#[test]
fn menu_open_centering_warp_leaves_no_streak() {
    let mut trail = CursorTrail::new();
    let fb = (1920, 1080);
    let center = (960.0, 540.0);

    let mut t = 5000u64;
    advance(&mut trail, (1500.0, 900.0), t, 4, fb);
    t += 16;
    advance(&mut trail, center, t, 4, fb);
    for _ in 0..10 {
        t += 16;
        advance(&mut trail, center, t, 4, fb);
    }
    assert_eq!(trail.count(), 0, "centering warp must leave no stray stamps");

    t += 16;
    advance(&mut trail, (1000.0, 540.0), t, 4, fb);
    assert!(trail.count() > 0, "trailing resumes after the cursor settles");
}

#[test]
fn emits_stamps_along_chord() {
    let mut trail = CursorTrail::new();
    advance(&mut trail, (0.0, 0.0), 0, 10, (1920, 1080));
    advance(&mut trail, (100.0, 0.0), 16, 10, (1920, 1080));
    assert_eq!(trail.count(), 10, "100px chord / 10px spacing = 10 stamps");
}

#[test]
fn per_frame_stamp_cap() {
    let mut trail = CursorTrail::new();
    advance(&mut trail, (0.0, 0.0), 0, 1, (1920, 1080));
    advance(&mut trail, (1900.0, 0.0), 16, 1, (1920, 1080));
    assert_eq!(trail.count(), MAX_STAMPS_PER_FRAME);
}

#[test]
fn resets_on_fb_change_gap_and_jump() {
    let mut trail = CursorTrail::new();
    advance(&mut trail, (0.0, 0.0), 0, 10, (1920, 1080));
    advance(&mut trail, (100.0, 0.0), 16, 10, (1920, 1080));
    assert!(trail.count() > 0);

    advance(&mut trail, (100.0, 0.0), 32, 10, (1280, 720));
    assert_eq!(trail.count(), 0);

    advance(&mut trail, (0.0, 0.0), 48, 10, (1280, 720));
    let stamped = trail.count();
    assert!(stamped > 0);

    advance(&mut trail, (500.0, 500.0), 300, 10, (1280, 720));
    assert_eq!(trail.count(), stamped, "gap reset means no chord to stamp");

    let before = trail.count();
    advance(&mut trail, (10000.0, 10000.0), 316, 10, (1280, 720));
    assert_eq!(trail.count(), before, "teleport must not stamp a streak");
}

#[test]
fn ring_buffer_wraps() {
    let mut trail = CursorTrail::new();
    let mut t = 0u64;
    let mut x = 0.0f32;
    for _ in 0..10 {
        advance(&mut trail, (x, 0.0), t, 1, (100_000, 1080));
        x += 100.0;
        t += 16;
    }
    assert_eq!(trail.count(), MAX_STAMPS);
    let shown = trail.visible(t, 300, (100_000, 1080));
    assert!(shown.len() <= MAX_STAMPS);
    assert_eq!(shown[0].shape, (900.0, 0.0), "the newest stamp comes first");
}

#[test]
fn expired_stamps_are_not_shown() {
    let mut trail: CursorTrail<Point, Point> = CursorTrail::new();
    trail.lay(&vec![(1.0, 1.0)], 10);
    trail.lay(&vec![(2.0, 2.0)], 60);
    assert_eq!(trail.visible(100, 100, (10, 10)).len(), 2);
    assert_eq!(trail.visible(110, 100, (10, 10)).len(), 1);
    assert!(trail.visible(160, 100, (10, 10)).is_empty());
    assert!(trail.visible(60, 100, (0, 10)).is_empty());
    trail.reset();
    assert_eq!(trail.count(), 0);
}

#[test]
fn sprites_are_loaded_once() {
    let mut trail: CursorTrail<Point, Point> = CursorTrail::new();
    assert!(!trail.sprite_ready("a.png"));
    trail.sprite_loaded(5, "a.png");
    assert!(trail.sprite_ready("a.png"));
    assert!(!trail.sprite_ready("b.png"));
    assert_eq!(trail.sprite_texture(), 5);
    assert!(sprite_accepted(true, 256, 256));
    assert!(!sprite_accepted(true, 257, 256));
    assert!(!sprite_accepted(false, 16, 16));
}

#[test]
fn nothing_is_laid_until_the_pointer_settles() {
    let fb = (1920, 1080);
    let mut trail = CursorTrail::new();
    advance(&mut trail, (0.0, 0.0), 10, 10, fb);
    advance(&mut trail, (100.0, 0.0), 20, 10, fb);
    assert_eq!(trail.count(), 10);
    // a frame that comes 101 ms late, and all up to 120 ms after it
    advance(&mut trail, (200.0, 0.0), 121, 10, fb);
    advance(&mut trail, (300.0, 0.0), 200, 10, fb);
    advance(&mut trail, (400.0, 0.0), 240, 10, fb);
    assert_eq!(trail.count(), 10);
    advance(&mut trail, (500.0, 0.0), 241, 10, fb);
    assert_eq!(trail.count(), 20);
    // 100 ms are not too long
    advance(&mut trail, (600.0, 0.0), 341, 10, fb);
    assert_eq!(trail.count(), 30);
    advance(&mut trail, (600.0, 0.0), 342, 10, (1920, 1081));
    assert_eq!(trail.count(), 0);
}

#[test]
fn a_frame_lays_no_more_than_it_may() {
    let mut trail: CursorTrail<Point, Point> = CursorTrail::new();
    let shapes: Vec<Point> = (0..200).map(|i| (i as f32, 0.0)).collect();
    trail.lay(&shapes, 5);
    assert_eq!(trail.count(), MAX_STAMPS_PER_FRAME);
    assert_eq!(trail.visible(5, 100, (10, 10))[0].shape, (127.0, 0.0));
    assert_eq!(stamp_steps(127), 127);
    assert_eq!(stamp_steps(128), 128);
    assert_eq!(stamp_steps(usize::MAX), 128);
    for _ in 0..4 {
        trail.lay(&shapes, 6);
    }
    assert_eq!(trail.count(), MAX_STAMPS);
}
