use tuxinjector::app_capture_macos::{
    capture_outcome, find_stream_window, find_windows_by_pid, forward_pending_keys,
    frame_has_content, glfw_key_to_jnh, glfw_mods_to_x11, key_line, largest_window, next_attempt,
    push_app_key, strided_to_rgba, AppCaptureManager, Attempt, CaptureFailure, MacKeyQueue,
    MacStep, MacWindow, PollStep, ProgramThrottle, Streams, WindowInfo, WindowSize,
    STABILIZATION_FRAMES,
};

const SECOND: u64 = 1_000_000_000;

#[test]
fn modifiers_and_keys_are_mapped() {
    assert_eq!(glfw_mods_to_x11(0), 0);
    assert_eq!(glfw_mods_to_x11(0x1 | 0x8), 1 + 64);
    assert_eq!(glfw_mods_to_x11(0xf), 1 + 4 + 8 + 64);
    assert_eq!(glfw_key_to_jnh(256), 0x0001);
    assert_eq!(glfw_key_to_jnh(65), 0x001e);
    assert_eq!(glfw_key_to_jnh(9999), -1);
    let mut seen = Vec::new();
    for k in 0..400 {
        let c = glfw_key_to_jnh(k);
        if c != -1 {
            assert!(!seen.contains(&c), "{k}");
            seen.push(c);
        }
    }
    assert_eq!(seen.len(), 98);
}

#[test]
fn mac_keys_wait_for_apps() {
    let mut q = MacKeyQueue::new();
    let mut burst = 3;
    push_app_key(&mut q, 65, 0, 0, true);
    push_app_key(&mut q, 65, 256, 0, true);
    push_app_key(&mut q, 65, 4, 1, false);
    assert!(q.events.is_empty());
    push_app_key(&mut q, 65, 4, 1, true);
    assert!(forward_pending_keys(&mut q, &mut burst, false).is_empty());
    assert_eq!((q.events.len(), burst), (1, 3), "without an app they keep waiting");
    assert_eq!(forward_pending_keys(&mut q, &mut burst, true), vec!["KEY 4 1 30\n"]);
    assert_eq!(burst, 100);
    assert_eq!(key_line((1, 2, -1)), "KEY 1 2 -1\n");
}

fn window(number: i32, title: &str, area: u64) -> WindowInfo {
    WindowInfo {
        number: Some(number),
        layer: Some(0),
        size: Some(WindowSize { over_50: true, over_100: true, square: false, area }),
        title: if title.is_empty() { None } else { Some(title.to_string()) },
        pid: Some(7),
    }
}

#[test]
fn mac_windows_are_found() {
    let mut v = vec![window(5, "", 10), window(9, "", 30), window(3, "App", 20)];
    let ids = |v: &Vec<WindowInfo>| -> Vec<u32> {
        find_windows_by_pid(v, 7).iter().map(|w| w.id).collect()
    };
    assert_eq!(ids(&v), vec![3, 9, 5], "titled ones first, then the newer");
    assert!(find_windows_by_pid(&v, 8).is_empty());
    assert_eq!(largest_window(&find_windows_by_pid(&v, 7)).unwrap().id, 9);
    v[1].title = Some("Minecraft 1.16".to_string());
    assert_eq!(ids(&v), vec![3, 5]);
    v[0].size = Some(WindowSize { over_50: true, over_100: true, square: true, area: 10 });
    assert_eq!(ids(&v), vec![3], "an untitled square is a ghost");
    v[0].layer = Some(3);
    assert_eq!(ids(&v), vec![3, 5]);
    v[0].layer = Some(100);
    v[2].number = Some(0);
    assert!(ids(&v).is_empty());
    assert!(largest_window(&Vec::new()).is_none());
    let w = |id: u32| MacWindow { id, area: 5, titled: false, index: 0 };
    assert_eq!(largest_window(&vec![w(1), w(2)]).unwrap().id, 2, "the last of equal ones");
}

#[test]
fn padded_rows_are_read() {
    let d = [1u8, 2, 3, 4, 0, 0, 5, 6, 7, 8, 0, 0];
    assert_eq!(strided_to_rgba(&d, 1, 2, 6, false), vec![3, 2, 1, 4, 7, 6, 5, 8]);
    assert_eq!(strided_to_rgba(&d, 1, 2, 6, true), vec![3, 2, 1, 255, 7, 6, 5, 255]);
    assert_eq!(strided_to_rgba(&d, 1, 9, 6, false).len(), 8, "missing rows end it");
    assert!(strided_to_rgba(&d, 4, 1, 16, false).is_empty());
    assert!(strided_to_rgba(&[], usize::MAX, 2, usize::MAX, false).is_empty());
}

#[test]
fn plain_pictures_have_no_content() {
    let mut p = vec![200u8; 8 * 8 * 4];
    assert!(!frame_has_content(&p, 8, 8));
    let at = |x: usize, y: usize| (y * 8 + x) * 4;
    p[at(1, 1)] = 0;
    assert!(!frame_has_content(&p, 8, 8), "one sample is not enough");
    p[at(3, 1)] = 191;
    assert!(frame_has_content(&p, 8, 8));
    p[at(3, 1)] = 192;
    assert!(!frame_has_content(&p, 8, 8), "small differences do not count");
    assert!(!frame_has_content(&p[..16], 8, 8));
    assert!(!frame_has_content(&p, 0, 8));
}

#[test]
fn program_runs_are_spaced() {
    let mut t = ProgramThrottle::new();
    assert!(t.may_run(SECOND));
    assert!(!t.may_run(2 * SECOND));
    assert!(t.may_run(3 * SECOND));
    t.burst = 2;
    assert!(t.may_run(3 * SECOND));
    assert!(!t.may_run(3 * SECOND + 99_999_999));
    assert_eq!(t.burst, 0);
}

#[test]
fn capture_failures_are_told_apart() {
    assert_eq!(capture_outcome([false, true, true, false], 1, 1, true, true), Ok(2));
    assert_eq!(
        capture_outcome([false; 4], 1, 1, true, true),
        Err(CaptureFailure::NullImage { methods_tried: 4 })
    );
    assert_eq!(capture_outcome([true; 4], 0, 5, true, true), Err(CaptureFailure::ZeroSize(0, 5)));
    assert_eq!(capture_outcome([true; 4], 1, 1, false, true), Err(CaptureFailure::NullProvider));
    assert_eq!(capture_outcome([true; 4], 1, 1, true, false), Err(CaptureFailure::NullData));
    assert_eq!(find_stream_window(&vec![None, Some(4), Some(9)], 9), Some(2));
    assert_eq!(find_stream_window(&vec![None], 9), None);
}

#[test]
fn streams_replace_each_other() {
    let mut s = Streams::new();
    assert!(s.maybe_start(5, SECOND));
    assert!(!s.maybe_start(5, SECOND));
    s.delegate_made(100, 5);
    assert!(s.setup_done(5, 100));
    s.on_output(100, &[1, 2, 3, 4], 1, 1, 4);
    assert_eq!(s.frame(5).unwrap().pixels, vec![3, 2, 1, 255]);
    assert!(s.maybe_start(6, SECOND));
    assert!(s.frame(5).is_none());
    s.on_output(100, &[1, 2, 3, 4], 1, 1, 4);
    assert!(s.frame(5).is_none(), "a stream that was let go is mute");
    s.delegate_made(200, 5);
    assert!(!s.setup_done(5, 200), "it was superseded");
    assert!(!s.delegates.contains_key(&200));
    s.delegate_made(300, 6);
    assert!(s.setup_done(6, 300));
    s.on_stop(300);
    assert!(s.gave_up.contains(&6) && !s.starting.contains(&6));
    s.setup_failed(6);
    assert!(s.frame(6).is_none());
}

fn mac(id: u32, area: u64) -> MacWindow {
    MacWindow { id, area, titled: true, index: 0 }
}

fn settled(now: u64) -> AppCaptureManager {
    let mut m = AppCaptureManager::new();
    assert_eq!(m.embed(7, now), MacStep::FindWindows);
    assert_eq!(m.found(7, &Vec::new(), now), None);
    assert_eq!(m.found(7, &vec![mac(4, 10), mac(5, 20)], now), Some(5));
    for _ in 1..STABILIZATION_FRAMES {
        assert_eq!(m.embed(7, now), MacStep::Nothing);
    }
    m
}

#[test]
fn mac_windows_are_captured() {
    let now = 100 * SECOND;
    let mut m = settled(now);
    assert_eq!(m.embed(7, now), MacStep::Poll);
    assert!(matches!(m.poll(7, now), PollStep::Show), "the stream has time to start");
    m.streams.delegate_made(1, 5);
    m.streams.on_output(1, &[1, 2, 3, 4], 1, 1, 4);
    match m.poll(7, now) {
        PollStep::UseStream { pixels, width, height } => {
            assert_eq!(m.accepted(7, pixels, width, height, 20, now), None);
        }
        _ => panic!("the stream has a picture"),
    }
    assert_eq!(m.picture(7), Some((vec![3, 2, 1, 255], 1, 1)));
    assert!(matches!(m.poll(7, now + 32_000_000), PollStep::Show));
    assert!(matches!(m.poll(7, now + 33_000_000), PollStep::UseStream { .. }));
    let (start, step) = m.rediscovered(7, &vec![mac(5, 20), mac(8, 90)], now);
    assert_eq!((start, step), (Some(8), MacStep::Show));
    assert_eq!(m.picture(7), None, "a larger window starts afresh");
    m.toggle_visibility();
    for _ in 0..3 {
        assert_eq!(m.embed(7, now), MacStep::Nothing);
    }
    m.drop_window(7);
    assert!(m.known_pids().is_empty());
}

#[test]
fn stuck_streams_are_left() {
    let now = 100 * SECOND;
    let mut m = settled(now);
    let later = now + 3 * SECOND + 1;
    assert!(matches!(m.poll(7, later), PollStep::Restart));
    assert!(matches!(m.poll(7, later), PollStep::Show));
    let last = later + 3 * SECOND + 1;
    assert!(matches!(m.poll(7, last), PollStep::Try { attempt: Attempt::List, allowed: true }));
    assert_eq!(m.rediscovered(7, &vec![mac(5, 20)], last), (Some(5), MacStep::Show));
    m.streams.delegate_made(1, 5);
    m.streams.on_stop(1);
    assert_eq!(m.rediscovered(7, &vec![mac(5, 20)], last), (None, MacStep::Poll));
    match m.poll(7, last) {
        PollStep::Try { attempt, allowed } => {
            assert_eq!((attempt, allowed), (Attempt::Hardware, true));
            assert_eq!(next_attempt(attempt, allowed), Some(Attempt::List));
            assert_eq!(next_attempt(Attempt::List, allowed), Some(Attempt::Program));
            assert_eq!(next_attempt(Attempt::List, false), None);
            assert_eq!(next_attempt(Attempt::Program, true), None);
        }
        _ => panic!("other ways are tried"),
    }
    assert_eq!(m.failed(7), (true, m.frame % 30 == 0));
    assert!(!m.failed(7).0, "failures are told once");
    assert_eq!(m.searched(7, &vec![mac(6, 1)], last), Some(6));
    assert_eq!(m.accepted(7, vec![0; 4], 1, 1, 2, last), Some(6), "it may be moved away");
    assert_eq!(m.accepted(7, vec![0; 4], 1, 1, 2, last), None);
    assert_eq!(m.searched(7, &Vec::new(), last), None);
    assert!(m.picture(7).is_some(), "the last picture stays");
    m.embedded.get_mut(&7).unwrap().pixels = None;
    m.searched(7, &Vec::new(), last);
    assert!(m.known_pids().is_empty());
}
