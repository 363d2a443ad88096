use tuxinjector::dlsym_hook::{
    dlsym_hook_impl, find_loader_source, hooked_egl_get_proc_address, open_flags, Hook, Lookup,
    Platform, ProcLoader, ProcLookup, Source,
};
use tuxinjector::input_handler::{
    after_button, after_hotkeys, dispatch, forwarded, handle_cursor_pos, handle_key,
    handle_mouse_button, handle_scroll, remapped_button, state_available, ButtonPlan, CursorPlan,
    GuiButton, GuiState, HotkeyAction, HotkeyContext, InputStep, KeyOutcome, KeyPlan, ReloadState,
    KEY_ESCAPE, PRESS, RELEASE,
};
use tuxinjector::state_watcher::StateModStatus;
use tuxinjector::swap_hook::{
    capture_original_size, center_game_content, center_rects, clear_mode_borders, effective_fps,
    exec_name, find_game_fbo_and_texture, frame_plan, process_lua_command, read_framebuffer,
    render_overlay, select_swap_ptr, set_scene_active, CenterBuffer, DrawStep, FboProbe,
    FrameLimiter, HostStep, InitState, LuaCommand, ModeSensitivity, RenderPath, SceneState,
};
use tuxinjector::wayland_hook::{center_hint, WaylandObjects, SET_FULLSCREEN, UNSET_FULLSCREEN};

#[test]
fn limits_are_raised_for_the_settings() {
    assert_eq!(effective_fps(10, true), 30);
    assert_eq!(effective_fps(10, false), 10);
    assert_eq!(effective_fps(0, true), 0);
    assert_eq!(effective_fps(60, true), 60);
}

#[test]
fn frames_are_paced() {
    let mut l = FrameLimiter::new();
    assert!(l.begin(100, 1000, 5_000_000_000).is_none(), "the first frame does not wait");
    assert_eq!(l.next, 5_010_000_000);
    let w = l.begin(100, 1000, 5_002_000_000).unwrap();
    assert_eq!(w.target, 5_010_000_000);
    assert_eq!(w.sleep_until, Some(5_009_000_000));
    assert!(w.spin);
    l.finish(w, 5_010_000_500);
    assert_eq!(l.next, 5_020_000_000, "frames stay one frame apart");
    let w = l.begin(100, 1000, 5_019_500_000).unwrap();
    assert_eq!(w.sleep_until, None, "the rest is spun");
    l.finish(w, 5_040_000_000);
    assert_eq!(l.next, 5_050_000_000, "lost frames are not made up for");
    assert!(l.begin(0, 1000, 5_060_000_000).is_none());
    assert_eq!(l.next, 0);
}

#[test]
fn first_frame_is_prepared_once() {
    let mut i = InitState::new();
    assert!(i.first_frame_init());
    assert!(!i.first_frame_init());
    assert!(i.resolved(true));
    assert!(i.overlay_made(true, false));
    assert!(i.initialized && !i.failed);
    let mut j = InitState::new();
    assert!(!j.resolved(false));
    assert!(j.failed && !j.initialized);
    let mut k = InitState::new();
    assert!(!k.overlay_made(false, false));
    assert!(k.failed);
}

fn modes() -> Vec<ModeSensitivity<f32>> {
    let m = |id: &str, on: bool, sep: bool| ModeSensitivity {
        id: id.to_string(),
        override_enabled: on,
        separate: sep,
        sensitivity: 0.5,
        x: 0.25,
        y: 0.75,
    };
    vec![m("Thin", true, true), m("Wide", true, false), m("Full", false, false)]
}

#[test]
fn script_commands_become_steps() {
    let m = modes();
    let run = |c: LuaCommand<f32>, current: Option<&str>| process_lua_command(c, current, &m);
    let r = run(LuaCommand::SwitchMode("Thin".into()), Some("Full"));
    assert_eq!(r.len(), 3);
    assert!(matches!(&r[0], HostStep::SwitchMode(n) if n == "Thin"));
    assert!(matches!(&r[1], HostStep::UpdateModeName(n) if n == "Thin"));
    assert!(matches!(r[2], HostStep::SetSensitivity(s, Some((x, y))) if (s, x, y) == (0.5, 0.25, 0.75)));
    let r = run(LuaCommand::SwitchMode("Nowhere".into()), None);
    assert_eq!(r.len(), 1);
    let toggle = || LuaCommand::ToggleMode { main: "Thin".into(), fallback: "Full".into() };
    let r = run(toggle(), Some("Thin"));
    assert!(matches!(&r[0], HostStep::SwitchMode(n) if n == "Full"));
    assert!(matches!(r[2], HostStep::ClearSensitivity));
    let r = run(toggle(), Some("Wide"));
    assert!(matches!(&r[0], HostStep::SwitchMode(n) if n == "Thin"));
    assert!(run(toggle(), None).is_empty());
    assert!(run(LuaCommand::ToggleGui, None).is_empty());
    assert!(matches!(run(LuaCommand::ToggleGui, Some(""))[0], HostStep::ToggleGui));
    assert!(matches!(run(LuaCommand::SetSensitivity(2.0), None)[0], HostStep::SetSensitivity(s, None) if s == 2.0));
    assert!(matches!(run(LuaCommand::PressKey(7), None)[0], HostStep::PressKey(7)));
    assert!(matches!(&run(LuaCommand::Log("x".into()), None)[0], HostStep::Log(t) if t == "x"));
    assert!(matches!(run(LuaCommand::ToggleAppVisibility, Some("a"))[0], HostStep::ToggleAppVisibility));
    match &run(LuaCommand::Exec("  /usr/bin/java -jar x".into()), None)[0] {
        HostStep::Spawn { command, name } => {
            assert_eq!(command, "  /usr/bin/java -jar x");
            assert_eq!(name, "java");
        }
        _ => panic!("a program is started"),
    }
}

#[test]
fn programs_are_named() {
    assert_eq!(exec_name("java -jar /a/b"), "java");
    assert_eq!(exec_name("/opt/x/"), "");
    assert_eq!(exec_name(" \t"), "exec");
    assert_eq!(exec_name(""), "exec");
}

#[test]
fn pictures_are_centered() {
    let c = center_rects(400, 1080, 1920, 1080).unwrap();
    assert_eq!((c.src_x, c.dst_x, c.width), (0, 760, 400));
    assert_eq!((c.src_y, c.dst_y, c.height), (0, 0, 1080));
    let c = center_rects(384, 16384, 1920, 1080).unwrap();
    assert_eq!((c.src_y, c.dst_y, c.height), (7652, 0, 1080));
    assert!(center_rects(1920, 1080, 1920, 1080).is_none());
    assert!(center_rects(1919, 1080, 1920, 1080).is_none());
    let steps = center_game_content(c, 9, 3, 1920, 1080, 0x405, 0);
    assert_eq!(steps.len(), 14);
    assert_eq!(steps[0], DrawStep::BindRead(3));
    assert_eq!(steps[1], DrawStep::ReadAttached);
    assert_eq!(
        steps[4],
        DrawStep::Blit { sx: c.src_x, sy: c.src_y, dx: 0, dy: 0, width: c.width, height: c.height }
    );
    assert_eq!(steps[13], DrawStep::DrawBuffer(0x405));
    assert_eq!(center_game_content(c, 9, 0, 1, 1, 0, 0)[1], DrawStep::ReadBack);
}

#[test]
fn center_buffers_are_made_when_needed() {
    let c = center_rects(400, 600, 1920, 1080).unwrap();
    let mut b = CenterBuffer::new();
    assert!(b.needs_objects() && b.needs_resize(&c));
    b.made(3, 4);
    assert!(!b.needs_objects());
    assert!(!b.resized(&c, false));
    assert!(b.needs_resize(&c), "an incomplete one is tried again");
    assert!(b.resized(&c, true));
    assert!(!b.needs_resize(&c));
}

#[test]
fn borders_surround_the_picture() {
    let (mw, mh, ow, oh) = (4u32, 6u32, 9u32, 12u32);
    let rects = clear_mode_borders(mw, mh, ow, oh);
    let (cx, cy) = ((9 - 4) / 2, (12 - 6) / 2);
    for y in 0..12i32 {
        for x in 0..9i32 {
            let hit = rects
                .iter()
                .any(|r| r.x <= x && x < r.x + r.width && r.y <= y && y < r.y + r.height);
            let inside = cx <= x && x < cx + 4 && cy <= y && y < cy + 6;
            assert_eq!(hit, !inside, "{x} {y}");
        }
    }
    assert!(clear_mode_borders(20, 20, 9, 9).is_empty());
    let tall = clear_mode_borders(20, 4, 9, 10);
    assert_eq!(tall.len(), 2);
    assert_eq!(tall[0].x, -5);
}

fn probe(id: u32, w: i32) -> FboProbe {
    FboProbe { id, exists: true, complete: true, textured: true, texture: 50 + id as i32, width: w, height: 8 }
}

#[test]
fn game_framebuffers_are_found() {
    let mut v = vec![probe(1, 4), probe(2, 7), probe(3, 7)];
    assert_eq!(find_game_fbo_and_texture(&v, 7, 8), (2, 52));
    v[1].complete = false;
    assert_eq!(find_game_fbo_and_texture(&v, 7, 8), (3, 53));
    assert_eq!(find_game_fbo_and_texture(&v, 9, 8), (0, 0));
    assert_eq!(read_framebuffer(7, 8, 5, 5, &v, true, 77), 3);
    assert_eq!(read_framebuffer(9, 8, 5, 5, &v, true, 77), 77);
    assert_eq!(read_framebuffer(9, 8, 5, 5, &v, false, 77), 0);
    assert_eq!(read_framebuffer(4, 4, 5, 5, &v, true, 77), 0);
}

#[test]
fn frames_are_planned() {
    assert!(frame_plan((0, 10), (1, 1), true, true, true).is_none());
    let p = frame_plan((10, 10), (0, 0), true, false, true).unwrap();
    assert!(!p.center && !p.borders);
    assert_eq!(p.active_res, (10, 10));
    let p = frame_plan((10, 10), (4, 10), false, true, true).unwrap();
    assert!(!p.center && p.borders);
    assert_eq!((p.size, p.active_res), ((10, 10), (4, 10)));
    let p = frame_plan((10, 10), (4, 10), false, false, true).unwrap();
    assert!(p.center && !p.borders);
    assert_eq!(capture_original_size(0, (5, 6)), Some((5, 6)));
    assert_eq!(capture_original_size(0, (0, 6)), None);
    assert_eq!(capture_original_size(3, (5, 6)), None);
}

#[test]
fn idle_overlays_are_skipped() {
    let mut scene = SceneState::new();
    let mut init = InitState::new();
    assert_eq!(render_overlay(&init, &scene, true, true), RenderPath::Nothing);
    init.overlay_made(true, true);
    assert_eq!(render_overlay(&init, &scene, false, false), RenderPath::Full);
    set_scene_active(&mut scene, false);
    assert_eq!(render_overlay(&init, &scene, false, false), RenderPath::CommandsOnly);
    assert_eq!(render_overlay(&init, &scene, false, true), RenderPath::Full);
}

#[test]
fn real_functions_are_chosen() {
    assert_eq!(select_swap_ptr(1, 2, false, false, false), 2);
    assert_eq!(select_swap_ptr(1, 0, false, false, false), 1);
    assert_eq!(select_swap_ptr(1, 2, true, false, false), 1);
    assert_eq!(select_swap_ptr(1, 2, true, true, false), 2);
    assert_eq!(select_swap_ptr(1, 2, true, false, true), 2);
}

#[test]
fn lookups_are_answered() {
    assert_eq!(dlsym_hook_impl(None, Platform::Linux), Lookup::PassThrough);
    assert_eq!(dlsym_hook_impl(Some("malloc"), Platform::Linux), Lookup::PassThrough);
    assert_eq!(
        dlsym_hook_impl(Some("eglSwapBuffers"), Platform::Linux),
        Lookup::Replace {
            hook: Hook::EglSwapBuffers,
            source: Source::Handle,
            loader: Some(ProcLoader::Egl)
        }
    );
    assert_eq!(dlsym_hook_impl(Some("eglSwapBuffers"), Platform::MacOs), Lookup::PassThrough);
    assert_eq!(
        dlsym_hook_impl(Some("glXGetProcAddressARB"), Platform::Linux),
        Lookup::Replace { hook: Hook::GlxGetProcAddress, source: Source::Next, loader: None }
    );
    assert_eq!(
        dlsym_hook_impl(Some("glfwSwapBuffers"), Platform::MacOs),
        Lookup::Replace { hook: Hook::GlfwSwapBuffers, source: Source::Handle, loader: None }
    );
    assert_eq!(find_loader_source(ProcLoader::Glx), Source::Next);
    assert_eq!(hooked_egl_get_proc_address(None, true), ProcLookup::Nothing);
    assert_eq!(
        hooked_egl_get_proc_address(Some("glViewport"), false),
        ProcLookup::Replace { hook: Hook::GlViewport, keep: false }
    );
    assert_eq!(hooked_egl_get_proc_address(Some("glBlitFramebuffer"), true), ProcLookup::Forward);
    assert_eq!(hooked_egl_get_proc_address(Some("x"), false), ProcLookup::System);
    assert_eq!(open_flags(0x102 | 8), 0x102);
    assert_eq!(open_flags(2), 2);
}

#[test]
fn wayland_objects_are_tracked() {
    let mut w = WaylandObjects::new();
    assert_eq!(w.set_fullscreen(true), None);
    assert!(w.needs_class(1, true, 5) && !w.needs_class(1, false, 5) && !w.needs_class(2, true, 5));
    assert!(w.reply(1, true, 5, "zwp_pointer_constraints_v1"));
    assert!(!w.reply(1, true, 6, "xdg_surface"));
    assert!(!w.reply(1, true, 7, "wl_surface"));
    assert_eq!((w.locked, w.toplevel), (5, 6));
    assert_eq!(w.set_fullscreen(true), Some((6, SET_FULLSCREEN)));
    assert_eq!(w.set_fullscreen(false), Some((6, UNSET_FULLSCREEN)));
    w.request(6, 3);
    assert_eq!(w.toplevel, 6);
    w.request(6, 0);
    w.request(5, 0);
    assert_eq!((w.locked, w.toplevel), (0, 0));
    assert_eq!(center_hint(1921, 1080), (1921 * 128, 1080 * 128));
    assert_eq!(center_hint(i32::MAX, -2), (i32::MAX as u64, (-256i32) as u32 as u64));
    for n in [0i32, 1, 7, 800, 4096] {
        let fixed = (n as f64 / 2.0 * 256.0).round() as i32;
        assert_eq!(center_hint(n, 0).0, fixed as u64);
    }
}

// ---------------------------------------------------------------------------

#[test]
fn hotkeys_become_steps() {
    let m = modes();
    let c = |current: Option<(&'static str, &'static str)>| HotkeyContext {
        current_mode: current,
        panel_shown: true,
        scripts: true,
    };
    let switch = |main: &str, secondary: &str| HotkeyAction::<f32>::SwitchMode {
        main: main.to_string(),
        secondary: secondary.to_string(),
    };
    let target = |r: &Vec<InputStep<f32>>| match &r[0] {
        InputStep::SwitchMode(t) => t.clone(),
        _ => panic!("a mode is switched"),
    };
    let r = dispatch(switch("Full", "Thin"), &c(Some(("Full", "Full"))), &m);
    assert_eq!(target(&r), "Thin");
    assert!(matches!(r[2], InputStep::SetModeOverride(s, Some(_)) if s == 0.5));
    assert_eq!(target(&dispatch(switch("Full", "Thin"), &c(Some(("Thin", "Full"))), &m)), "Full");
    assert_eq!(target(&dispatch(switch("Full", "Thin"), &c(Some(("Wide", "Full"))), &m)), "Thin");
    assert_eq!(target(&dispatch(switch("Wide", ""), &c(Some(("Wide", "Full"))), &m)), "Full");
    assert_eq!(target(&dispatch(switch("Wide", ""), &c(Some(("Full", "Full"))), &m)), "Wide");
    assert!(dispatch(switch("Wide", ""), &c(None), &m).is_empty());
    let r = dispatch(switch("Wide", ""), &c(Some(("Wide", ""))), &m);
    assert_eq!(r.len(), 1, "a mode without a name is not told");
    let toggle = HotkeyAction::ToggleSensitivity { sensitivity: 1.0, separate: true, x: 2.0, y: 3.0 };
    assert!(matches!(
        dispatch(toggle, &c(None), &m)[0],
        InputStep::ToggleHotkeyOverride(s, Some((x, y))) if (s, x, y) == (1.0, 2.0, 3.0)
    ));
    assert!(matches!(
        dispatch(HotkeyAction::ToggleNinjabrainOverlay, &c(None), &m)[0],
        InputStep::ShowNinjabrain(false)
    ));
    assert!(dispatch(HotkeyAction::ToggleGui, &c(None), &m).is_empty());
    assert!(matches!(dispatch(HotkeyAction::ToggleBorderless, &c(None), &m)[0], InputStep::ToggleBorderless));
    assert!(dispatch(HotkeyAction::Custom("x".into()), &c(None), &m).is_empty());
    assert!(matches!(dispatch(HotkeyAction::LuaCallback(8), &c(None), &m)[0], InputStep::SendCallback(8)));
    let deaf = HotkeyContext { current_mode: None, panel_shown: false, scripts: false };
    assert!(dispatch(HotkeyAction::LuaCallback(8), &deaf, &m).is_empty());
    assert!(matches!(
        dispatch(HotkeyAction::LaunchApps { nbb: true, paceman: false }, &deaf, &m)[0],
        InputStep::LaunchApps { nbb: true, paceman: false }
    ));
}

fn gui(visible: bool, capturing: bool, wants_keyboard: bool, popup: bool) -> GuiState {
    GuiState { visible, capturing, wants_keyboard, popup }
}

#[test]
fn keys_are_routed() {
    assert_eq!(forwarded(PRESS), Some(true));
    assert_eq!(forwarded(RELEASE), Some(false));
    assert_eq!(forwarded(2), None);
    assert_eq!(handle_key(65, 66, PRESS, gui(true, true, false, false)), KeyPlan::Capture);
    let p = handle_key(65, 66, PRESS, gui(true, true, true, false));
    assert_eq!(p, KeyPlan::GuiHotkeys { key: 65 });
    assert_eq!(after_hotkeys(p, true, 65, PRESS), (KeyOutcome::RunActions, true));
    assert_eq!(after_hotkeys(p, false, KEY_ESCAPE, PRESS), (KeyOutcome::CloseGui, true));
    assert_eq!(after_hotkeys(p, false, 65, RELEASE), (KeyOutcome::ToGui { pressed: false }, true));
    let p = handle_key(65, 66, PRESS, gui(false, false, false, false));
    assert_eq!(p, KeyPlan::GameHotkeys { key: 66 });
    assert_eq!(after_hotkeys(p, false, 65, PRESS), (KeyOutcome::RunActions, false));
}

#[test]
fn buttons_are_routed() {
    assert_eq!(remapped_button(400, 70, 80), 70);
    assert_eq!(remapped_button(400, 400, 80), 80);
    assert_eq!(remapped_button(400, 400, 400), 400);
    let open = gui(true, false, false, false);
    assert_eq!(handle_mouse_button(0, PRESS, 1, open), ButtonPlan::Gui(GuiButton::LeftPress));
    assert_eq!(handle_mouse_button(0, RELEASE, 1, open), ButtonPlan::Gui(GuiButton::LeftRelease));
    assert_eq!(handle_mouse_button(1, PRESS, 1, open), ButtonPlan::Gui(GuiButton::RightPress));
    assert_eq!(handle_mouse_button(3, PRESS, 1, open), ButtonPlan::Gui(GuiButton::Nothing));
    assert_eq!(handle_mouse_button(3, PRESS, 1, gui(true, true, false, false)), ButtonPlan::Capture);
    let popup = gui(false, false, false, true);
    assert_eq!(handle_mouse_button(0, PRESS, 1, popup), ButtonPlan::Gui(GuiButton::LeftPress));
    let p = handle_mouse_button(1, PRESS, 70, popup);
    assert_eq!(p, ButtonPlan::Hotkeys { key: 70 });
    assert_eq!(after_button(p, true, 1, 401), (true, 401));
    assert_eq!(after_button(p, false, 1, 401), (false, 70));
    assert_eq!(after_button(ButtonPlan::Hotkeys { key: 401 }, false, 1, 401), (false, 1));
    assert_eq!(handle_cursor_pos(true, true, true), (true, CursorPlan::Drop));
    assert_eq!(handle_cursor_pos(false, false, true), (false, CursorPlan::Scale));
    assert_eq!(handle_cursor_pos(false, false, false), (false, CursorPlan::ToGame));
    assert!(handle_scroll(true) && !handle_scroll(false));
}

#[test]
fn settings_are_reloaded_on_change() {
    let mut r = ReloadState::new();
    assert!(!r.maybe_reload(0));
    assert!(r.maybe_reload(3));
    assert!(!r.maybe_reload(3));
    assert!(state_available(StateModStatus::Hermes));
    assert!(state_available(StateModStatus::StateOutput));
    assert!(!state_available(StateModStatus::Missing));
}
