//! Verified core of the overlay: parsers, formatters, state machines and
//! layout rules, each with a contract that Verus proves.

use crate::dlsym_hook::Platform;
use vstd::prelude::*;
#[allow(unused_imports)]
use vstd::string::*;

pub mod app_capture;
pub mod app_capture_macos;
pub mod browser_capture;
pub mod companion_clipboard;
pub mod config_diff;
pub mod cursor_image;
pub mod cursor_system;
pub mod cursor_trail;
pub mod dlsym_hook;
pub mod input_handler;
pub mod json;
pub mod liblogger;
pub mod nbb_client;
pub mod nbb_data;
pub mod nbb_format;
pub mod nbb_overlay;
pub mod raster;
pub mod single;
pub mod state_watcher;
pub mod swap_hook;
pub mod text;
pub mod tux_log;
pub mod wayland_hook;
pub mod window_state;

verus! {

/// The directory below the home directory that holds the overlay's data.
pub fn data_subpath(platform: Platform) -> (r: &'static str)
    ensures
        r@ == match platform {
            Platform::MacOs => ".config/tuxinjector"@,
            Platform::Linux => ".local/share/tuxinjector"@,
        },
{
    match platform {
        Platform::MacOs => ".config/tuxinjector",
        Platform::Linux => ".local/share/tuxinjector",
    }
}

/// The parts of the overlay whose details are logged.
#[derive(Clone, Copy, Debug, PartialEq, Eq, Structural)]
pub struct DebugSettings {
    pub log_mode_switch: bool,
    pub log_animation: bool,
    pub log_hotkey: bool,
    pub log_window_overlay: bool,
    pub log_file_monitor: bool,
    pub log_image_monitor: bool,
    pub log_performance: bool,
    pub log_texture_ops: bool,
    pub log_gui: bool,
    pub log_init: bool,
    pub log_overlay: bool,
}

/// A part of a text that is there where `on` holds.
pub open spec fn included(on: bool, part: Seq<char>) -> Seq<char> {
    if on {
        part
    } else {
        Seq::empty()
    }
}

/// The rules by which messages are kept: warnings always, the code of the
/// settings always, and details of the parts that are asked for.
pub open spec fn filter_text(d: DebugSettings) -> Seq<char> {
    "tuxinjector=warn,tuxinjector_config=warn,tuxinjector_gl_interop=warn,tuxinjector_render=warn,tuxinjector::config_code=info"@
        + included(d.log_mode_switch, ",tuxinjector::overlay=debug,tuxinjector::swap_hook=debug,tuxinjector::viewport_hook=debug"@)
        + included(d.log_animation, ",tuxinjector::mode_system=debug"@)
        + included(d.log_hotkey, ",tuxinjector::input_handler=debug"@)
        + included(d.log_window_overlay, ",tuxinjector::app_capture=debug,tuxinjector::window_state=debug"@)
        + included(d.log_file_monitor, ",tuxinjector_config=debug,tuxinjector::config_init=debug"@)
        + included(d.log_image_monitor, ",tuxinjector_render=debug"@)
        + included(d.log_performance, ",tuxinjector::perf_stats=debug"@)
        + included(d.log_texture_ops, ",tuxinjector_gl_interop=debug"@)
        + included(d.log_gui, ",tuxinjector::gui_renderer=debug"@)
        + included(d.log_init, ",tuxinjector::config_init=debug,tuxinjector::dlsym_hook=debug,tuxinjector::gl_resolve=debug"@)
        + included(d.log_overlay, ",tuxinjector::overlay=debug,tuxinjector::cursor_system=debug"@)
}

fn add_part(out: &mut String, on: bool, part: &str)
    ensures
        final(out)@ == old(out)@ + included(on, part@),
{
    if on {
        out.append(part);
    }
    assert(out@ =~= old(out)@ + included(on, part@));
}

/// The rules by which messages are kept, as one text.
pub fn apply_log_filter(d: &DebugSettings) -> (r: String)
    ensures
        r@ == filter_text(*d),
{
    let mut out: String = "tuxinjector=warn,tuxinjector_config=warn,tuxinjector_gl_interop=warn,tuxinjector_render=warn,tuxinjector::config_code=info".to_owned();
    add_part(&mut out, d.log_mode_switch, ",tuxinjector::overlay=debug,tuxinjector::swap_hook=debug,tuxinjector::viewport_hook=debug");
    add_part(&mut out, d.log_animation, ",tuxinjector::mode_system=debug");
    add_part(&mut out, d.log_hotkey, ",tuxinjector::input_handler=debug");
    add_part(&mut out, d.log_window_overlay, ",tuxinjector::app_capture=debug,tuxinjector::window_state=debug");
    add_part(&mut out, d.log_file_monitor, ",tuxinjector_config=debug,tuxinjector::config_init=debug");
    add_part(&mut out, d.log_image_monitor, ",tuxinjector_render=debug");
    add_part(&mut out, d.log_performance, ",tuxinjector::perf_stats=debug");
    add_part(&mut out, d.log_texture_ops, ",tuxinjector_gl_interop=debug");
    add_part(&mut out, d.log_gui, ",tuxinjector::gui_renderer=debug");
    add_part(&mut out, d.log_init, ",tuxinjector::config_init=debug,tuxinjector::dlsym_hook=debug,tuxinjector::gl_resolve=debug");
    add_part(&mut out, d.log_overlay, ",tuxinjector::overlay=debug,tuxinjector::cursor_system=debug");
    out
}

/// `after` is `before` with `part` put in.
pub open spec fn gains(before: Seq<char>, after: Seq<char>, part: Seq<char>) -> bool {
    exists|a: Seq<char>, b: Seq<char>|
        before == #[trigger] (a + b) && after == a + part + b
}

proof fn lemma_gains_last(a: Seq<char>, part: Seq<char>)
    ensures
        gains(a + Seq::<char>::empty(), a + part, part),
{
    let e = Seq::<char>::empty();
    assert(a + part == a + part + e);
    assert(gains(a + e, a + part, part));
}

proof fn lemma_gains_before(before: Seq<char>, after: Seq<char>, part: Seq<char>, z: Seq<char>)
    requires
        gains(before, after, part),
    ensures
        gains(before + z, after + z, part),
{
    let (a, b) = choose|a: Seq<char>, b: Seq<char>|
        before == #[trigger] (a + b) && after == a + part + b;
    assert(before + z == a + (b + z));
    assert(after + z == a + part + (b + z));
}

proof fn lemma_log_mode_switch(d: DebugSettings)
    ensures
        gains(
            filter_text(DebugSettings { log_mode_switch: false, ..d }),
            filter_text(DebugSettings { log_mode_switch: true, ..d }),
            ",tuxinjector::overlay=debug,tuxinjector::swap_hook=debug,tuxinjector::viewport_hook=debug"@,
        ),
{
    let part = ",tuxinjector::overlay=debug,tuxinjector::swap_hook=debug,tuxinjector::viewport_hook=debug"@;
    let a0 = "tuxinjector=warn,tuxinjector_config=warn,tuxinjector_gl_interop=warn,tuxinjector_render=warn,tuxinjector::config_code=info"@;
    let l0 = a0 + included(false, part);
    let r0 = a0 + included(true, part);
    lemma_gains_last(a0, part);
    let p1 = included(d.log_animation, ",tuxinjector::mode_system=debug"@);
    lemma_gains_before(l0, r0, part, p1);
    let l1 = l0 + p1;
    let r1 = r0 + p1;
    let p2 = included(d.log_hotkey, ",tuxinjector::input_handler=debug"@);
    lemma_gains_before(l1, r1, part, p2);
    let l2 = l1 + p2;
    let r2 = r1 + p2;
    let p3 = included(d.log_window_overlay, ",tuxinjector::app_capture=debug,tuxinjector::window_state=debug"@);
    lemma_gains_before(l2, r2, part, p3);
    let l3 = l2 + p3;
    let r3 = r2 + p3;
    let p4 = included(d.log_file_monitor, ",tuxinjector_config=debug,tuxinjector::config_init=debug"@);
    lemma_gains_before(l3, r3, part, p4);
    let l4 = l3 + p4;
    let r4 = r3 + p4;
    let p5 = included(d.log_image_monitor, ",tuxinjector_render=debug"@);
    lemma_gains_before(l4, r4, part, p5);
    let l5 = l4 + p5;
    let r5 = r4 + p5;
    let p6 = included(d.log_performance, ",tuxinjector::perf_stats=debug"@);
    lemma_gains_before(l5, r5, part, p6);
    let l6 = l5 + p6;
    let r6 = r5 + p6;
    let p7 = included(d.log_texture_ops, ",tuxinjector_gl_interop=debug"@);
    lemma_gains_before(l6, r6, part, p7);
    let l7 = l6 + p7;
    let r7 = r6 + p7;
    let p8 = included(d.log_gui, ",tuxinjector::gui_renderer=debug"@);
    lemma_gains_before(l7, r7, part, p8);
    let l8 = l7 + p8;
    let r8 = r7 + p8;
    let p9 = included(d.log_init, ",tuxinjector::config_init=debug,tuxinjector::dlsym_hook=debug,tuxinjector::gl_resolve=debug"@);
    lemma_gains_before(l8, r8, part, p9);
    let l9 = l8 + p9;
    let r9 = r8 + p9;
    let p10 = included(d.log_overlay, ",tuxinjector::overlay=debug,tuxinjector::cursor_system=debug"@);
    lemma_gains_before(l9, r9, part, p10);
    let l10 = l9 + p10;
    let r10 = r9 + p10;
}

proof fn lemma_log_animation(d: DebugSettings)
    ensures
        gains(
            filter_text(DebugSettings { log_animation: false, ..d }),
            filter_text(DebugSettings { log_animation: true, ..d }),
            ",tuxinjector::mode_system=debug"@,
        ),
{
    let part = ",tuxinjector::mode_system=debug"@;
    let a0 = "tuxinjector=warn,tuxinjector_config=warn,tuxinjector_gl_interop=warn,tuxinjector_render=warn,tuxinjector::config_code=info"@;
    let a1 = a0 + included(d.log_mode_switch, ",tuxinjector::overlay=debug,tuxinjector::swap_hook=debug,tuxinjector::viewport_hook=debug"@);
    let l1 = a1 + included(false, part);
    let r1 = a1 + included(true, part);
    lemma_gains_last(a1, part);
    let p2 = included(d.log_hotkey, ",tuxinjector::input_handler=debug"@);
    lemma_gains_before(l1, r1, part, p2);
    let l2 = l1 + p2;
    let r2 = r1 + p2;
    let p3 = included(d.log_window_overlay, ",tuxinjector::app_capture=debug,tuxinjector::window_state=debug"@);
    lemma_gains_before(l2, r2, part, p3);
    let l3 = l2 + p3;
    let r3 = r2 + p3;
    let p4 = included(d.log_file_monitor, ",tuxinjector_config=debug,tuxinjector::config_init=debug"@);
    lemma_gains_before(l3, r3, part, p4);
    let l4 = l3 + p4;
    let r4 = r3 + p4;
    let p5 = included(d.log_image_monitor, ",tuxinjector_render=debug"@);
    lemma_gains_before(l4, r4, part, p5);
    let l5 = l4 + p5;
    let r5 = r4 + p5;
    let p6 = included(d.log_performance, ",tuxinjector::perf_stats=debug"@);
    lemma_gains_before(l5, r5, part, p6);
    let l6 = l5 + p6;
    let r6 = r5 + p6;
    let p7 = included(d.log_texture_ops, ",tuxinjector_gl_interop=debug"@);
    lemma_gains_before(l6, r6, part, p7);
    let l7 = l6 + p7;
    let r7 = r6 + p7;
    let p8 = included(d.log_gui, ",tuxinjector::gui_renderer=debug"@);
    lemma_gains_before(l7, r7, part, p8);
    let l8 = l7 + p8;
    let r8 = r7 + p8;
    let p9 = included(d.log_init, ",tuxinjector::config_init=debug,tuxinjector::dlsym_hook=debug,tuxinjector::gl_resolve=debug"@);
    lemma_gains_before(l8, r8, part, p9);
    let l9 = l8 + p9;
    let r9 = r8 + p9;
    let p10 = included(d.log_overlay, ",tuxinjector::overlay=debug,tuxinjector::cursor_system=debug"@);
    lemma_gains_before(l9, r9, part, p10);
    let l10 = l9 + p10;
    let r10 = r9 + p10;
}

proof fn lemma_log_hotkey(d: DebugSettings)
    ensures
        gains(
            filter_text(DebugSettings { log_hotkey: false, ..d }),
            filter_text(DebugSettings { log_hotkey: true, ..d }),
            ",tuxinjector::input_handler=debug"@,
        ),
{
    let part = ",tuxinjector::input_handler=debug"@;
    let a0 = "tuxinjector=warn,tuxinjector_config=warn,tuxinjector_gl_interop=warn,tuxinjector_render=warn,tuxinjector::config_code=info"@;
    let a1 = a0 + included(d.log_mode_switch, ",tuxinjector::overlay=debug,tuxinjector::swap_hook=debug,tuxinjector::viewport_hook=debug"@);
    let a2 = a1 + included(d.log_animation, ",tuxinjector::mode_system=debug"@);
    let l2 = a2 + included(false, part);
    let r2 = a2 + included(true, part);
    lemma_gains_last(a2, part);
    let p3 = included(d.log_window_overlay, ",tuxinjector::app_capture=debug,tuxinjector::window_state=debug"@);
    lemma_gains_before(l2, r2, part, p3);
    let l3 = l2 + p3;
    let r3 = r2 + p3;
    let p4 = included(d.log_file_monitor, ",tuxinjector_config=debug,tuxinjector::config_init=debug"@);
    lemma_gains_before(l3, r3, part, p4);
    let l4 = l3 + p4;
    let r4 = r3 + p4;
    let p5 = included(d.log_image_monitor, ",tuxinjector_render=debug"@);
    lemma_gains_before(l4, r4, part, p5);
    let l5 = l4 + p5;
    let r5 = r4 + p5;
    let p6 = included(d.log_performance, ",tuxinjector::perf_stats=debug"@);
    lemma_gains_before(l5, r5, part, p6);
    let l6 = l5 + p6;
    let r6 = r5 + p6;
    let p7 = included(d.log_texture_ops, ",tuxinjector_gl_interop=debug"@);
    lemma_gains_before(l6, r6, part, p7);
    let l7 = l6 + p7;
    let r7 = r6 + p7;
    let p8 = included(d.log_gui, ",tuxinjector::gui_renderer=debug"@);
    lemma_gains_before(l7, r7, part, p8);
    let l8 = l7 + p8;
    let r8 = r7 + p8;
    let p9 = included(d.log_init, ",tuxinjector::config_init=debug,tuxinjector::dlsym_hook=debug,tuxinjector::gl_resolve=debug"@);
    lemma_gains_before(l8, r8, part, p9);
    let l9 = l8 + p9;
    let r9 = r8 + p9;
    let p10 = included(d.log_overlay, ",tuxinjector::overlay=debug,tuxinjector::cursor_system=debug"@);
    lemma_gains_before(l9, r9, part, p10);
    let l10 = l9 + p10;
    let r10 = r9 + p10;
}

proof fn lemma_log_window_overlay(d: DebugSettings)
    ensures
        gains(
            filter_text(DebugSettings { log_window_overlay: false, ..d }),
            filter_text(DebugSettings { log_window_overlay: true, ..d }),
            ",tuxinjector::app_capture=debug,tuxinjector::window_state=debug"@,
        ),
{
    let part = ",tuxinjector::app_capture=debug,tuxinjector::window_state=debug"@;
    let a0 = "tuxinjector=warn,tuxinjector_config=warn,tuxinjector_gl_interop=warn,tuxinjector_render=warn,tuxinjector::config_code=info"@;
    let a1 = a0 + included(d.log_mode_switch, ",tuxinjector::overlay=debug,tuxinjector::swap_hook=debug,tuxinjector::viewport_hook=debug"@);
    let a2 = a1 + included(d.log_animation, ",tuxinjector::mode_system=debug"@);
    let a3 = a2 + included(d.log_hotkey, ",tuxinjector::input_handler=debug"@);
    let l3 = a3 + included(false, part);
    let r3 = a3 + included(true, part);
    lemma_gains_last(a3, part);
    let p4 = included(d.log_file_monitor, ",tuxinjector_config=debug,tuxinjector::config_init=debug"@);
    lemma_gains_before(l3, r3, part, p4);
    let l4 = l3 + p4;
    let r4 = r3 + p4;
    let p5 = included(d.log_image_monitor, ",tuxinjector_render=debug"@);
    lemma_gains_before(l4, r4, part, p5);
    let l5 = l4 + p5;
    let r5 = r4 + p5;
    let p6 = included(d.log_performance, ",tuxinjector::perf_stats=debug"@);
    lemma_gains_before(l5, r5, part, p6);
    let l6 = l5 + p6;
    let r6 = r5 + p6;
    let p7 = included(d.log_texture_ops, ",tuxinjector_gl_interop=debug"@);
    lemma_gains_before(l6, r6, part, p7);
    let l7 = l6 + p7;
    let r7 = r6 + p7;
    let p8 = included(d.log_gui, ",tuxinjector::gui_renderer=debug"@);
    lemma_gains_before(l7, r7, part, p8);
    let l8 = l7 + p8;
    let r8 = r7 + p8;
    let p9 = included(d.log_init, ",tuxinjector::config_init=debug,tuxinjector::dlsym_hook=debug,tuxinjector::gl_resolve=debug"@);
    lemma_gains_before(l8, r8, part, p9);
    let l9 = l8 + p9;
    let r9 = r8 + p9;
    let p10 = included(d.log_overlay, ",tuxinjector::overlay=debug,tuxinjector::cursor_system=debug"@);
    lemma_gains_before(l9, r9, part, p10);
    let l10 = l9 + p10;
    let r10 = r9 + p10;
}

proof fn lemma_log_file_monitor(d: DebugSettings)
    ensures
        gains(
            filter_text(DebugSettings { log_file_monitor: false, ..d }),
            filter_text(DebugSettings { log_file_monitor: true, ..d }),
            ",tuxinjector_config=debug,tuxinjector::config_init=debug"@,
        ),
{
    let part = ",tuxinjector_config=debug,tuxinjector::config_init=debug"@;
    let a0 = "tuxinjector=warn,tuxinjector_config=warn,tuxinjector_gl_interop=warn,tuxinjector_render=warn,tuxinjector::config_code=info"@;
    let a1 = a0 + included(d.log_mode_switch, ",tuxinjector::overlay=debug,tuxinjector::swap_hook=debug,tuxinjector::viewport_hook=debug"@);
    let a2 = a1 + included(d.log_animation, ",tuxinjector::mode_system=debug"@);
    let a3 = a2 + included(d.log_hotkey, ",tuxinjector::input_handler=debug"@);
    let a4 = a3 + included(d.log_window_overlay, ",tuxinjector::app_capture=debug,tuxinjector::window_state=debug"@);
    let l4 = a4 + included(false, part);
    let r4 = a4 + included(true, part);
    lemma_gains_last(a4, part);
    let p5 = included(d.log_image_monitor, ",tuxinjector_render=debug"@);
    lemma_gains_before(l4, r4, part, p5);
    let l5 = l4 + p5;
    let r5 = r4 + p5;
    let p6 = included(d.log_performance, ",tuxinjector::perf_stats=debug"@);
    lemma_gains_before(l5, r5, part, p6);
    let l6 = l5 + p6;
    let r6 = r5 + p6;
    let p7 = included(d.log_texture_ops, ",tuxinjector_gl_interop=debug"@);
    lemma_gains_before(l6, r6, part, p7);
    let l7 = l6 + p7;
    let r7 = r6 + p7;
    let p8 = included(d.log_gui, ",tuxinjector::gui_renderer=debug"@);
    lemma_gains_before(l7, r7, part, p8);
    let l8 = l7 + p8;
    let r8 = r7 + p8;
    let p9 = included(d.log_init, ",tuxinjector::config_init=debug,tuxinjector::dlsym_hook=debug,tuxinjector::gl_resolve=debug"@);
    lemma_gains_before(l8, r8, part, p9);
    let l9 = l8 + p9;
    let r9 = r8 + p9;
    let p10 = included(d.log_overlay, ",tuxinjector::overlay=debug,tuxinjector::cursor_system=debug"@);
    lemma_gains_before(l9, r9, part, p10);
    let l10 = l9 + p10;
    let r10 = r9 + p10;
}

proof fn lemma_log_image_monitor(d: DebugSettings)
    ensures
        gains(
            filter_text(DebugSettings { log_image_monitor: false, ..d }),
            filter_text(DebugSettings { log_image_monitor: true, ..d }),
            ",tuxinjector_render=debug"@,
        ),
{
    let part = ",tuxinjector_render=debug"@;
    let a0 = "tuxinjector=warn,tuxinjector_config=warn,tuxinjector_gl_interop=warn,tuxinjector_render=warn,tuxinjector::config_code=info"@;
    let a1 = a0 + included(d.log_mode_switch, ",tuxinjector::overlay=debug,tuxinjector::swap_hook=debug,tuxinjector::viewport_hook=debug"@);
    let a2 = a1 + included(d.log_animation, ",tuxinjector::mode_system=debug"@);
    let a3 = a2 + included(d.log_hotkey, ",tuxinjector::input_handler=debug"@);
    let a4 = a3 + included(d.log_window_overlay, ",tuxinjector::app_capture=debug,tuxinjector::window_state=debug"@);
    let a5 = a4 + included(d.log_file_monitor, ",tuxinjector_config=debug,tuxinjector::config_init=debug"@);
    let l5 = a5 + included(false, part);
    let r5 = a5 + included(true, part);
    lemma_gains_last(a5, part);
    let p6 = included(d.log_performance, ",tuxinjector::perf_stats=debug"@);
    lemma_gains_before(l5, r5, part, p6);
    let l6 = l5 + p6;
    let r6 = r5 + p6;
    let p7 = included(d.log_texture_ops, ",tuxinjector_gl_interop=debug"@);
    lemma_gains_before(l6, r6, part, p7);
    let l7 = l6 + p7;
    let r7 = r6 + p7;
    let p8 = included(d.log_gui, ",tuxinjector::gui_renderer=debug"@);
    lemma_gains_before(l7, r7, part, p8);
    let l8 = l7 + p8;
    let r8 = r7 + p8;
    let p9 = included(d.log_init, ",tuxinjector::config_init=debug,tuxinjector::dlsym_hook=debug,tuxinjector::gl_resolve=debug"@);
    lemma_gains_before(l8, r8, part, p9);
    let l9 = l8 + p9;
    let r9 = r8 + p9;
    let p10 = included(d.log_overlay, ",tuxinjector::overlay=debug,tuxinjector::cursor_system=debug"@);
    lemma_gains_before(l9, r9, part, p10);
    let l10 = l9 + p10;
    let r10 = r9 + p10;
}

proof fn lemma_log_performance(d: DebugSettings)
    ensures
        gains(
            filter_text(DebugSettings { log_performance: false, ..d }),
            filter_text(DebugSettings { log_performance: true, ..d }),
            ",tuxinjector::perf_stats=debug"@,
        ),
{
    let part = ",tuxinjector::perf_stats=debug"@;
    let a0 = "tuxinjector=warn,tuxinjector_config=warn,tuxinjector_gl_interop=warn,tuxinjector_render=warn,tuxinjector::config_code=info"@;
    let a1 = a0 + included(d.log_mode_switch, ",tuxinjector::overlay=debug,tuxinjector::swap_hook=debug,tuxinjector::viewport_hook=debug"@);
    let a2 = a1 + included(d.log_animation, ",tuxinjector::mode_system=debug"@);
    let a3 = a2 + included(d.log_hotkey, ",tuxinjector::input_handler=debug"@);
    let a4 = a3 + included(d.log_window_overlay, ",tuxinjector::app_capture=debug,tuxinjector::window_state=debug"@);
    let a5 = a4 + included(d.log_file_monitor, ",tuxinjector_config=debug,tuxinjector::config_init=debug"@);
    let a6 = a5 + included(d.log_image_monitor, ",tuxinjector_render=debug"@);
    let l6 = a6 + included(false, part);
    let r6 = a6 + included(true, part);
    lemma_gains_last(a6, part);
    let p7 = included(d.log_texture_ops, ",tuxinjector_gl_interop=debug"@);
    lemma_gains_before(l6, r6, part, p7);
    let l7 = l6 + p7;
    let r7 = r6 + p7;
    let p8 = included(d.log_gui, ",tuxinjector::gui_renderer=debug"@);
    lemma_gains_before(l7, r7, part, p8);
    let l8 = l7 + p8;
    let r8 = r7 + p8;
    let p9 = included(d.log_init, ",tuxinjector::config_init=debug,tuxinjector::dlsym_hook=debug,tuxinjector::gl_resolve=debug"@);
    lemma_gains_before(l8, r8, part, p9);
    let l9 = l8 + p9;
    let r9 = r8 + p9;
    let p10 = included(d.log_overlay, ",tuxinjector::overlay=debug,tuxinjector::cursor_system=debug"@);
    lemma_gains_before(l9, r9, part, p10);
    let l10 = l9 + p10;
    let r10 = r9 + p10;
}

proof fn lemma_log_texture_ops(d: DebugSettings)
    ensures
        gains(
            filter_text(DebugSettings { log_texture_ops: false, ..d }),
            filter_text(DebugSettings { log_texture_ops: true, ..d }),
            ",tuxinjector_gl_interop=debug"@,
        ),
{
    let part = ",tuxinjector_gl_interop=debug"@;
    let a0 = "tuxinjector=warn,tuxinjector_config=warn,tuxinjector_gl_interop=warn,tuxinjector_render=warn,tuxinjector::config_code=info"@;
    let a1 = a0 + included(d.log_mode_switch, ",tuxinjector::overlay=debug,tuxinjector::swap_hook=debug,tuxinjector::viewport_hook=debug"@);
    let a2 = a1 + included(d.log_animation, ",tuxinjector::mode_system=debug"@);
    let a3 = a2 + included(d.log_hotkey, ",tuxinjector::input_handler=debug"@);
    let a4 = a3 + included(d.log_window_overlay, ",tuxinjector::app_capture=debug,tuxinjector::window_state=debug"@);
    let a5 = a4 + included(d.log_file_monitor, ",tuxinjector_config=debug,tuxinjector::config_init=debug"@);
    let a6 = a5 + included(d.log_image_monitor, ",tuxinjector_render=debug"@);
    let a7 = a6 + included(d.log_performance, ",tuxinjector::perf_stats=debug"@);
    let l7 = a7 + included(false, part);
    let r7 = a7 + included(true, part);
    lemma_gains_last(a7, part);
    let p8 = included(d.log_gui, ",tuxinjector::gui_renderer=debug"@);
    lemma_gains_before(l7, r7, part, p8);
    let l8 = l7 + p8;
    let r8 = r7 + p8;
    let p9 = included(d.log_init, ",tuxinjector::config_init=debug,tuxinjector::dlsym_hook=debug,tuxinjector::gl_resolve=debug"@);
    lemma_gains_before(l8, r8, part, p9);
    let l9 = l8 + p9;
    let r9 = r8 + p9;
    let p10 = included(d.log_overlay, ",tuxinjector::overlay=debug,tuxinjector::cursor_system=debug"@);
    lemma_gains_before(l9, r9, part, p10);
    let l10 = l9 + p10;
    let r10 = r9 + p10;
}

proof fn lemma_log_gui(d: DebugSettings)
    ensures
        gains(
            filter_text(DebugSettings { log_gui: false, ..d }),
            filter_text(DebugSettings { log_gui: true, ..d }),
            ",tuxinjector::gui_renderer=debug"@,
        ),
{
    let part = ",tuxinjector::gui_renderer=debug"@;
    let a0 = "tuxinjector=warn,tuxinjector_config=warn,tuxinjector_gl_interop=warn,tuxinjector_render=warn,tuxinjector::config_code=info"@;
    let a1 = a0 + included(d.log_mode_switch, ",tuxinjector::overlay=debug,tuxinjector::swap_hook=debug,tuxinjector::viewport_hook=debug"@);
    let a2 = a1 + included(d.log_animation, ",tuxinjector::mode_system=debug"@);
    let a3 = a2 + included(d.log_hotkey, ",tuxinjector::input_handler=debug"@);
    let a4 = a3 + included(d.log_window_overlay, ",tuxinjector::app_capture=debug,tuxinjector::window_state=debug"@);
    let a5 = a4 + included(d.log_file_monitor, ",tuxinjector_config=debug,tuxinjector::config_init=debug"@);
    let a6 = a5 + included(d.log_image_monitor, ",tuxinjector_render=debug"@);
    let a7 = a6 + included(d.log_performance, ",tuxinjector::perf_stats=debug"@);
    let a8 = a7 + included(d.log_texture_ops, ",tuxinjector_gl_interop=debug"@);
    let l8 = a8 + included(false, part);
    let r8 = a8 + included(true, part);
    lemma_gains_last(a8, part);
    let p9 = included(d.log_init, ",tuxinjector::config_init=debug,tuxinjector::dlsym_hook=debug,tuxinjector::gl_resolve=debug"@);
    lemma_gains_before(l8, r8, part, p9);
    let l9 = l8 + p9;
    let r9 = r8 + p9;
    let p10 = included(d.log_overlay, ",tuxinjector::overlay=debug,tuxinjector::cursor_system=debug"@);
    lemma_gains_before(l9, r9, part, p10);
    let l10 = l9 + p10;
    let r10 = r9 + p10;
}

proof fn lemma_log_init(d: DebugSettings)
    ensures
        gains(
            filter_text(DebugSettings { log_init: false, ..d }),
            filter_text(DebugSettings { log_init: true, ..d }),
            ",tuxinjector::config_init=debug,tuxinjector::dlsym_hook=debug,tuxinjector::gl_resolve=debug"@,
        ),
{
    let part = ",tuxinjector::config_init=debug,tuxinjector::dlsym_hook=debug,tuxinjector::gl_resolve=debug"@;
    let a0 = "tuxinjector=warn,tuxinjector_config=warn,tuxinjector_gl_interop=warn,tuxinjector_render=warn,tuxinjector::config_code=info"@;
    let a1 = a0 + included(d.log_mode_switch, ",tuxinjector::overlay=debug,tuxinjector::swap_hook=debug,tuxinjector::viewport_hook=debug"@);
    let a2 = a1 + included(d.log_animation, ",tuxinjector::mode_system=debug"@);
    let a3 = a2 + included(d.log_hotkey, ",tuxinjector::input_handler=debug"@);
    let a4 = a3 + included(d.log_window_overlay, ",tuxinjector::app_capture=debug,tuxinjector::window_state=debug"@);
    let a5 = a4 + included(d.log_file_monitor, ",tuxinjector_config=debug,tuxinjector::config_init=debug"@);
    let a6 = a5 + included(d.log_image_monitor, ",tuxinjector_render=debug"@);
    let a7 = a6 + included(d.log_performance, ",tuxinjector::perf_stats=debug"@);
    let a8 = a7 + included(d.log_texture_ops, ",tuxinjector_gl_interop=debug"@);
    let a9 = a8 + included(d.log_gui, ",tuxinjector::gui_renderer=debug"@);
    let l9 = a9 + included(false, part);
    let r9 = a9 + included(true, part);
    lemma_gains_last(a9, part);
    let p10 = included(d.log_overlay, ",tuxinjector::overlay=debug,tuxinjector::cursor_system=debug"@);
    lemma_gains_before(l9, r9, part, p10);
    let l10 = l9 + p10;
    let r10 = r9 + p10;
}

proof fn lemma_log_overlay(d: DebugSettings)
    ensures
        gains(
            filter_text(DebugSettings { log_overlay: false, ..d }),
            filter_text(DebugSettings { log_overlay: true, ..d }),
            ",tuxinjector::overlay=debug,tuxinjector::cursor_system=debug"@,
        ),
{
    let part = ",tuxinjector::overlay=debug,tuxinjector::cursor_system=debug"@;
    let a0 = "tuxinjector=warn,tuxinjector_config=warn,tuxinjector_gl_interop=warn,tuxinjector_render=warn,tuxinjector::config_code=info"@;
    let a1 = a0 + included(d.log_mode_switch, ",tuxinjector::overlay=debug,tuxinjector::swap_hook=debug,tuxinjector::viewport_hook=debug"@);
    let a2 = a1 + included(d.log_animation, ",tuxinjector::mode_system=debug"@);
    let a3 = a2 + included(d.log_hotkey, ",tuxinjector::input_handler=debug"@);
    let a4 = a3 + included(d.log_window_overlay, ",tuxinjector::app_capture=debug,tuxinjector::window_state=debug"@);
    let a5 = a4 + included(d.log_file_monitor, ",tuxinjector_config=debug,tuxinjector::config_init=debug"@);
    let a6 = a5 + included(d.log_image_monitor, ",tuxinjector_render=debug"@);
    let a7 = a6 + included(d.log_performance, ",tuxinjector::perf_stats=debug"@);
    let a8 = a7 + included(d.log_texture_ops, ",tuxinjector_gl_interop=debug"@);
    let a9 = a8 + included(d.log_gui, ",tuxinjector::gui_renderer=debug"@);
    let a10 = a9 + included(d.log_init, ",tuxinjector::config_init=debug,tuxinjector::dlsym_hook=debug,tuxinjector::gl_resolve=debug"@);
    let l10 = a10 + included(false, part);
    let r10 = a10 + included(true, part);
    lemma_gains_last(a10, part);
}

/// Each switch puts the rules for its own part of the program in, whatever the
/// others are; with all of them off only warnings are kept, and what the settings
/// are.
pub proof fn law_switches_open_their_parts(d: DebugSettings)
    ensures
        gains(
            filter_text(DebugSettings { log_mode_switch: false, ..d }),
            filter_text(DebugSettings { log_mode_switch: true, ..d }),
            ",tuxinjector::overlay=debug,tuxinjector::swap_hook=debug,tuxinjector::viewport_hook=debug"@,
        ),
        gains(
            filter_text(DebugSettings { log_animation: false, ..d }),
            filter_text(DebugSettings { log_animation: true, ..d }),
            ",tuxinjector::mode_system=debug"@,
        ),
        gains(
            filter_text(DebugSettings { log_hotkey: false, ..d }),
            filter_text(DebugSettings { log_hotkey: true, ..d }),
            ",tuxinjector::input_handler=debug"@,
        ),
        gains(
            filter_text(DebugSettings { log_window_overlay: false, ..d }),
            filter_text(DebugSettings { log_window_overlay: true, ..d }),
            ",tuxinjector::app_capture=debug,tuxinjector::window_state=debug"@,
        ),
        gains(
            filter_text(DebugSettings { log_file_monitor: false, ..d }),
            filter_text(DebugSettings { log_file_monitor: true, ..d }),
            ",tuxinjector_config=debug,tuxinjector::config_init=debug"@,
        ),
        gains(
            filter_text(DebugSettings { log_image_monitor: false, ..d }),
            filter_text(DebugSettings { log_image_monitor: true, ..d }),
            ",tuxinjector_render=debug"@,
        ),
        gains(
            filter_text(DebugSettings { log_performance: false, ..d }),
            filter_text(DebugSettings { log_performance: true, ..d }),
            ",tuxinjector::perf_stats=debug"@,
        ),
        gains(
            filter_text(DebugSettings { log_texture_ops: false, ..d }),
            filter_text(DebugSettings { log_texture_ops: true, ..d }),
            ",tuxinjector_gl_interop=debug"@,
        ),
        gains(
            filter_text(DebugSettings { log_gui: false, ..d }),
            filter_text(DebugSettings { log_gui: true, ..d }),
            ",tuxinjector::gui_renderer=debug"@,
        ),
        gains(
            filter_text(DebugSettings { log_init: false, ..d }),
            filter_text(DebugSettings { log_init: true, ..d }),
            ",tuxinjector::config_init=debug,tuxinjector::dlsym_hook=debug,tuxinjector::gl_resolve=debug"@,
        ),
        gains(
            filter_text(DebugSettings { log_overlay: false, ..d }),
            filter_text(DebugSettings { log_overlay: true, ..d }),
            ",tuxinjector::overlay=debug,tuxinjector::cursor_system=debug"@,
        ),
        !d.log_mode_switch && !d.log_animation && !d.log_hotkey && !d.log_window_overlay && !d.log_file_monitor && !d.log_image_monitor && !d.log_performance && !d.log_texture_ops && !d.log_gui && !d.log_init && !d.log_overlay ==> filter_text(d) == "tuxinjector=warn,tuxinjector_config=warn,tuxinjector_gl_interop=warn,tuxinjector_render=warn,tuxinjector::config_code=info"@,
{
    lemma_log_mode_switch(d);
    lemma_log_animation(d);
    lemma_log_hotkey(d);
    lemma_log_window_overlay(d);
    lemma_log_file_monitor(d);
    lemma_log_image_monitor(d);
    lemma_log_performance(d);
    lemma_log_texture_ops(d);
    lemma_log_gui(d);
    lemma_log_init(d);
    lemma_log_overlay(d);
    assert("tuxinjector=warn,tuxinjector_config=warn,tuxinjector_gl_interop=warn,tuxinjector_render=warn,tuxinjector::config_code=info"@ + Seq::<char>::empty() == "tuxinjector=warn,tuxinjector_config=warn,tuxinjector_gl_interop=warn,tuxinjector_render=warn,tuxinjector::config_code=info"@);
}

/// The data lies in the user's own place for it, which each platform has.
pub proof fn law_data_places(platform: Platform, r: &'static str)
    requires
        call_ensures(data_subpath, (platform,), r),
    ensures
        platform == Platform::Linux ==> r@ == ".local/share/tuxinjector"@,
        platform == Platform::MacOs ==> r@ == ".config/tuxinjector"@,
{
}

} // verus!
