use tuxinjector::app_capture::{
    bgra_to_rgba, collect_matching, find_all_recursive, find_all_via_xres, find_all_windows_by_pid,
    forward_pending_keys, largest_first, matching_bases, push_app_key, store_capture,
    AppCaptureManager, AppKeyQueue, BgCapture, EmbedAction, WindowNode, STABILIZATION_FRAMES,
};
use tuxinjector::browser_capture::{
    escape, fps_command, frame_header, gio_candidates, gio_modules, is_tls_package,
    navigate_command, session_key, BrowserCaptureManager, BrowserOverlayConfig, CapturedFrame,
    SyncStep,
};
use tuxinjector::companion_clipboard::{
    publish, reported_property, selection_lost, serve_request, set_clipboard, target_list, Answer,
    Clipboard, TargetAtoms,
};
use tuxinjector::state_watcher::{
    find_live_source, hermes_alive, inworld_state, parse_hermes, to_game_state, wpstateout_fresh,
    Found, StateModStatus, StateSource, Watcher,
};
use tuxinjector::text::{ascii_digit, hex_digit, join_path, split_lines, trim, white_space};
use tuxinjector::window_state::{title_to_state, title_update};

#[test]
fn keys_wait_for_apps() {
    let mut q = AppKeyQueue::new();
    push_app_key(&mut q, 65, 30, 0, true);
    push_app_key(&mut q, 65, 30, 0, false);
    push_app_key(&mut q, 65, -1, 0, true);
    assert_eq!(q.events, vec![(38, true), (38, false)]);
    assert_eq!(forward_pending_keys(&mut q, true), vec![(2, 38), (3, 38)]);
    assert!(q.events.is_empty());
}

#[test]
fn pixels_are_exchanged() {
    assert_eq!(bgra_to_rgba(&[1, 2, 3, 4, 5, 6, 7, 8], 32), vec![3, 2, 1, 4, 7, 6, 5, 8]);
    assert_eq!(bgra_to_rgba(&[1, 2, 3, 0], 24), vec![3, 2, 1, 255]);
    let twice = bgra_to_rgba(&bgra_to_rgba(&[9, 8, 7, 6], 32), 32);
    assert_eq!(twice, vec![9, 8, 7, 6]);
}

fn node(id: u32, area: Option<u32>, pid: Option<u32>, children: Vec<WindowNode>) -> WindowNode {
    WindowNode { id, area, pid, children }
}

#[test]
fn windows_are_found() {
    let inner = node(0x20_0003, Some(50), Some(7), vec![]);
    let a = node(0x20_0001, Some(10), None, vec![inner]);
    let b = node(0x40_0001, Some(99), Some(7), vec![]);
    let root = node(1, Some(1000), None, vec![a, b]);
    assert_eq!(matching_bases(&vec![(Some(7), 0x20_0000), (None, 5), (Some(8), 6)], 7), vec![0x20_0000]);
    let mut out = Vec::new();
    collect_matching(&root, &vec![0x20_0000], 0x1f_ffff, &mut out);
    assert!(out.contains(&(0x20_0003, 50)));
    let mut named = Vec::new();
    find_all_recursive(&root, 7, &mut named);
    assert_eq!(largest_first(&named)[0], 0x40_0001);
    let ids = vec![(Some(7), 0x20_0000)];
    let by_client = find_all_via_xres(&root, &ids, 0x1f_ffff, 7);
    assert!(!by_client.is_empty());
    assert_eq!(find_all_windows_by_pid(&root, &ids, 0x1f_ffff, true, 7), by_client);
    assert_eq!(find_all_windows_by_pid(&root, &Vec::new(), 0x1f_ffff, true, 7), largest_first(&named));
    assert_eq!(largest_first(&vec![(1, 5), (2, 9), (3, 5)]), vec![2, 1, 3]);
}

#[test]
fn windows_are_embedded() {
    let mut m = AppCaptureManager::new();
    assert!(matches!(m.embed(7), EmbedAction::Connect));
    assert!(matches!(m.connected(7, false), EmbedAction::Nothing));
    assert!(matches!(m.connected(7, true), EmbedAction::FindWindows));
    assert!(matches!(m.found(7, &Vec::new()), EmbedAction::Nothing));
    assert_eq!(m.search_fails.get(&7), Some(&1));
    m.found(7, &vec![11, 12]);
    assert_eq!(m.known_pids(), vec![7]);
    for _ in 1..STABILIZATION_FRAMES {
        m.embed(7);
        assert!(matches!(m.connected(7, true), EmbedAction::Nothing));
    }
    m.embed(7);
    assert!(matches!(m.connected(7, true), EmbedAction::CheckWindow(11)));
    assert!(matches!(m.checked(7, true), EmbedAction::StartCapture(11)));
    assert!(matches!(m.capture_started(7), EmbedAction::ReadCapture));
    let mut bg = BgCapture { pixels: None, width: 0, height: 0, gen: 0 };
    store_capture(&mut bg, &[1, 2, 3, 4], 32, 1, 1);
    match m.captured(7, bg) {
        EmbedAction::Show { pixels, width, height } => {
            assert_eq!((pixels, width, height), (vec![3, 2, 1, 4], 1, 1));
        }
        _ => panic!("a picture is shown"),
    }
    m.toggle_visibility();
    assert!(matches!(m.connected(7, true), EmbedAction::Nothing));
    assert!(m.needs_float_hint(7));
    m.set_float_hint(7, 0);
    assert!(m.needs_float_hint(7));
    m.set_float_hint(7, 2);
    assert!(!m.needs_float_hint(7));
    assert_eq!(m.drop_window(7), Some(11));
    assert!(m.known_pids().is_empty());
}

#[test]
fn lost_windows_are_searched_rarely() {
    let mut m = AppCaptureManager::new();
    for _ in 0..501 {
        m.found(7, &Vec::new());
    }
    let asked = (0..120).filter(|_| matches!(m.embed(7), EmbedAction::Connect)).count();
    assert_eq!(asked, 2);
}

// ---------------------------------------------------------------------------

fn overlay(url: &str) -> BrowserOverlayConfig {
    BrowserOverlayConfig {
        name: "n".to_string(),
        url: url.to_string(),
        custom_css: String::new(),
        width: 10,
        height: 20,
        fps: 5,
    }
}

#[test]
fn helpers_are_kept_in_step() {
    let mut m = BrowserCaptureManager::new();
    assert!(matches!(m.sync_session(0, &overlay("")), SyncStep::Skip));
    let key = match m.sync_session(0, &overlay("http://a")) {
        SyncStep::Start { key, commands } => {
            assert!(!commands.is_empty());
            key
        }
        _ => panic!("a helper is started"),
    };
    assert_eq!(key, session_key(0, "n"));
    m.started(key.clone(), &overlay("http://a"));
    match m.sync_session(0, &overlay("http://a")) {
        SyncStep::Send { commands, .. } => assert!(commands.is_empty(), "nothing changed"),
        _ => panic!("the helper runs"),
    }
    match m.sync_session(0, &overlay("http://b")) {
        SyncStep::Send { commands, .. } => assert_eq!(commands, vec![navigate_command("http://b")]),
        _ => panic!("the helper runs"),
    }
    assert!(m.latest_frame("n").is_none());
    m.received("n", CapturedFrame { pixels: vec![1], width: 1, height: 1 });
    assert_eq!(m.latest_frame("n").unwrap().width, 1);
    assert!(m.stale_sessions(&vec![overlay("http://b")]).is_empty());
    assert_eq!(m.stale_sessions(&Vec::new()), vec![key.clone()]);
    assert!(m.stop_session(&key));
    assert!(!m.stop_session(&key));
}

#[test]
fn frames_go_to_their_session() {
    let frame = |w: u32| CapturedFrame { pixels: Vec::new(), width: w, height: 1 };
    let mut m = BrowserCaptureManager::new();
    m.started("a".to_string(), &overlay("http://a"));
    m.started("b".to_string(), &overlay("http://b"));
    m.started("c".to_string(), &overlay("http://c"));
    m.received("a", frame(1));
    m.received("b", frame(2));
    m.received("b", frame(3));
    m.received("none", frame(4));
    assert_eq!(m.latest_frame("a").unwrap().width, 1);
    assert_eq!(m.latest_frame("b").unwrap().width, 3);
    assert!(m.latest_frame("c").is_none());
    assert!(m.latest_frame("none").is_none());
    assert!(m.stop_session("a"));
    assert!(m.latest_frame("a").is_none());
    assert_eq!(m.latest_frame("b").unwrap().width, 3);
    // a helper with a key that is taken replaces the other one
    m.started("b".to_string(), &overlay("http://d"));
    assert!(m.latest_frame("b").is_none());
    assert!(m.stop_session("b"));
    assert!(!m.stop_session("b"));
}

#[test]
fn helper_lines_are_quoted() {
    assert_eq!(escape("a\"b\\c"), "a\\\"b\\\\c");
    assert_eq!(navigate_command("x\"y"), "{\"cmd\":\"navigate\",\"url\":\"x\\\"y\"}");
    assert_eq!(fps_command(-3), "{\"cmd\":\"set_fps\",\"fps\":-3}");
}

#[test]
fn frame_heads_are_checked() {
    let h = frame_header(&[2, 0, 0, 0, 3, 1, 0, 0, 24, 0, 0, 0]).unwrap();
    assert_eq!((h.width, h.height, h.len), (2, 259, 24));
    assert!(frame_header(&[0; 12]).is_none());
    assert!(frame_header(&[0xff; 12]).is_none());
}

#[test]
fn module_paths_are_joined() {
    assert_eq!(gio_modules("", "/t"), Some("/t".to_string()));
    assert_eq!(gio_modules("/a", "/t"), Some("/a:/t".to_string()));
    assert_eq!(gio_modules("/nix/glib-networking-1/x", "/t"), None);
    assert_eq!(gio_candidates(None).len(), 1);
    assert_eq!(gio_candidates(Some("/h".into()))[1], "/h/.nix-profile/lib/gio/modules");
    assert!(is_tls_package("x-glib-networking-2.7"));
    assert!(!is_tls_package("x-glib-networking-2.7.drv"));
}

#[test]
fn copied_text_is_served() {
    let atoms = TargetAtoms { utf8: 10, string: 31, targets: 12 };
    let mut c = Clipboard::new();
    assert_eq!(serve_request(&c, 10, 5, atoms), Answer::Refuse);
    assert_eq!(set_clipboard(&mut c, "a".into(), None), None);
    assert_eq!(set_clipboard(&mut c, "b".into(), Some(3)), Some(3));
    assert_eq!(set_clipboard(&mut c, "c".into(), Some(3)), None, "the owner starts once");
    assert!(publish(&mut c));
    assert_eq!(c.current.as_deref(), Some("c"));
    assert!(!publish(&mut c));
    assert_eq!(serve_request(&c, 10, 5, atoms), Answer::Text { property: 5, target: 10 });
    assert_eq!(serve_request(&c, 31, 0, atoms), Answer::Text { property: 31, target: 31 });
    assert_eq!(serve_request(&c, 12, 5, atoms), Answer::Targets { property: 5 });
    assert_eq!(serve_request(&c, 99, 5, atoms), Answer::Refuse);
    assert_eq!(target_list(atoms)[0], 12);
    assert_eq!(reported_property(Answer::Refuse, true), 0);
    assert_eq!(reported_property(Answer::Targets { property: 5 }, true), 5);
    assert_eq!(reported_property(Answer::Targets { property: 5 }, false), 0);
    selection_lost(&mut c);
    assert_eq!(serve_request(&c, 10, 5, atoms), Answer::Refuse);
}

// ---------------------------------------------------------------------------

#[test]
fn states_are_read() {
    assert_eq!(inworld_state(true), "inworld,cursor_grabbed");
    assert_eq!(inworld_state(false), "inworld,cursor_free");
    assert_eq!(to_game_state("wall", false), "wall");
    assert_eq!(to_game_state("inworld,unpaused", true), "inworld,cursor_grabbed");
    assert!(parse_hermes("{", true).is_none());
}

#[test]
fn sources_must_be_fresh() {
    assert!(wpstateout_fresh(Some(5), Some(5)));
    assert!(!wpstateout_fresh(Some(4), Some(5)));
    let mut alive = Vec::new();
    alive.extend_from_slice(&77u32.to_be_bytes());
    assert!(!hermes_alive(&alive, 77, 1000), "a short mark counts for nothing");
    let none = Found { hermes: false, alive: None, wpstateout: false, wpstateout_time: None };
    assert_eq!(find_live_source(&none, 7, 0, Some(0)), None);
    let wp = Found { hermes: false, alive: None, wpstateout: true, wpstateout_time: Some(9) };
    assert_eq!(find_live_source(&wp, 7, 0, Some(1)), Some(StateSource::WpStateOut));
    assert_eq!(find_live_source(&wp, 7, 0, Some(10)), None);
}

#[test]
fn watcher_tells_once() {
    let mut w = Watcher::new();
    let l = w.look(None, 59);
    assert!(!l.warn && l.status == StateModStatus::Missing);
    assert!(w.look(None, 60).warn);
    assert!(!w.look(None, 61).warn);
    let l = w.look(Some(StateSource::WpStateOut), 62);
    assert!(l.log_source && l.status == StateModStatus::StateOutput);
    assert!(!w.look(Some(StateSource::WpStateOut), 63).log_source);
    assert_eq!(w.read(StateSource::WpStateOut, "title", false), Some("title"));
    assert_eq!(w.read(StateSource::WpStateOut, " title\n", false), Some("title"));
    assert_eq!(w.read(StateSource::WpStateOut, "\n", false), None);
    assert_eq!(w.last_state, "title");
}

#[test]
fn titles_give_a_coarse_state() {
    assert_eq!(title_to_state("Minecraft 1.16.1"), "menu");
    assert_eq!(title_to_state("Minecraft - SINGLEPLAYER"), "ingame");
    assert_eq!(title_to_state("Minecraft - Multiplayer (LAN)"), "ingame");
    assert_eq!(title_to_state(""), "");
    assert_eq!(title_update("menu", "ingame"), Some("ingame"));
    assert_eq!(title_update("menu", "menu"), None);
    assert_eq!(title_update("wall", "menu"), None);
}

#[test]
fn characters_agree_with_std() {
    for n in 0..=0x10ffffu32 {
        if let Some(c) = char::from_u32(n) {
            assert_eq!(white_space(c), c.is_whitespace(), "{n:x}");
            assert_eq!(ascii_digit(c), c.is_ascii_digit());
            assert_eq!(hex_digit(c), c.to_digit(16));
        }
    }
    assert_eq!(trim(" \u{2003}a b\n"), "a b");
    assert_eq!(split_lines("a\n\nb"), vec!["a", "", "b"]);
    assert_eq!(join_path("/a", "b"), "/a/b");
    assert_eq!(join_path("/a/", "b"), "/a/b");
    assert_eq!(join_path("/a", "/b"), "/b");
}
