//! Companion apps on macOS: the keys that are passed to them, the search for
//! their windows, the capture streams, and the choice of a capture method.

use crate::app_capture::{SEARCH_FAIL_LIMIT, SEARCH_RETRY_FRAMES};
use crate::raster::{copy_bytes, push_pixel};
use crate::text::{has_text, push_int, push_nat, push_text};
use std::collections::{HashMap, HashSet};
use vstd::prelude::*;
use vstd::std_specs::iter::IteratorSpec;
use vstd::string::*;

verus! {

use crate::app_capture::{fails_of, search_paused};
use crate::raster::{byte_index, four_bytes, image_bytes, lemma_image_bytes, row_bytes};
use crate::text::{contains, decimal, decimal_nat, texts};

broadcast use vstd::std_specs::hash::group_hash_axioms;

/// Nanoseconds between two captures.
pub const CAPTURE_INTERVAL: u64 = 100_000_000;

/// Nanoseconds between two looks at a stream.
pub const STREAM_INTERVAL: u64 = 33_000_000;

/// Nanoseconds after which a stream without a picture is stuck.
pub const STUCK_AFTER: u64 = 3_000_000_000;

/// Nanoseconds from the first picture in which a larger window is looked for.
pub const DISCOVERY_TIME: u64 = 10_000_000_000;

/// Nanoseconds between two captures by an outside program without input.
pub const IDLE_INTERVAL: u64 = 2_000_000_000;

/// The capture method of a stream.
pub const METHOD_STREAM: u8 = 20;

/// The highest method for which a window may be moved away.
pub const LAST_HIDING_METHOD: u8 = 4;

/// Frames that a found window is left alone.
pub const STABILIZATION_FRAMES: u64 = 60;

/// Frames in which a capture by an outside program may be taken after input was
/// passed on.
pub const BURST_FRAMES: u32 = 100;

// ---------------------------------------------------------------------------
// Keys
// ---------------------------------------------------------------------------

/// Key presses that wait to be passed on: scancode, modifiers and the app's own
/// keycode.
pub struct MacKeyQueue {
    pub events: Vec<(u8, u16, i32)>,
}

impl MacKeyQueue {
    pub fn new() -> (r: MacKeyQueue)
        ensures
            r.events@.len() == 0,
    {
        MacKeyQueue { events: Vec::new() }
    }
}

/// The X11 mask of the modifiers: shift, control, alt and super.
pub open spec fn x11_mods(mods: i32) -> int {
    (if mods & 0x1 != 0 {
        1int
    } else {
        0
    }) + (if mods & 0x2 != 0 {
        4int
    } else {
        0
    }) + (if mods & 0x4 != 0 {
        8int
    } else {
        0
    }) + (if mods & 0x8 != 0 {
        64int
    } else {
        0
    })
}

pub fn glfw_mods_to_x11(mods: i32) -> (r: u16)
    ensures
        r as int == x11_mods(mods),
{
    let mut s: u16 = 0;
    if mods & 0x1 != 0 {
        s = s + 1;
    }
    if mods & 0x2 != 0 {
        s = s + 4;
    }
    if mods & 0x4 != 0 {
        s = s + 8;
    }
    if mods & 0x8 != 0 {
        s = s + 64;
    }
    s
}

/// The keycode under which the apps know a key; -1 for a key that they do not
/// know.
pub open spec fn jnh_code(key: i32) -> i32 {
    match key {
        256 => 0x0001,
        290 => 0x003b,
        291 => 0x003c,
        292 => 0x003d,
        293 => 0x003e,
        294 => 0x003f,
        295 => 0x0040,
        296 => 0x0041,
        297 => 0x0042,
        298 => 0x0043,
        299 => 0x0044,
        300 => 0x0057,
        301 => 0x0058,
        96 => 0x0029,
        49 => 0x0002,
        50 => 0x0003,
        51 => 0x0004,
        52 => 0x0005,
        53 => 0x0006,
        54 => 0x0007,
        55 => 0x0008,
        56 => 0x0009,
        57 => 0x000a,
        48 => 0x000b,
        45 => 0x000c,
        61 => 0x000d,
        259 => 0x000e,
        258 => 0x000f,
        81 => 0x0010,
        87 => 0x0011,
        69 => 0x0012,
        82 => 0x0013,
        84 => 0x0014,
        89 => 0x0015,
        85 => 0x0016,
        73 => 0x0017,
        79 => 0x0018,
        80 => 0x0019,
        91 => 0x001a,
        93 => 0x001b,
        92 => 0x002b,
        280 => 0x003a,
        65 => 0x001e,
        83 => 0x001f,
        68 => 0x0020,
        70 => 0x0021,
        71 => 0x0022,
        72 => 0x0023,
        74 => 0x0024,
        75 => 0x0025,
        76 => 0x0026,
        59 => 0x0027,
        39 => 0x0028,
        257 => 0x001c,
        90 => 0x002c,
        88 => 0x002d,
        67 => 0x002e,
        86 => 0x002f,
        66 => 0x0030,
        78 => 0x0031,
        77 => 0x0032,
        44 => 0x0033,
        46 => 0x0034,
        47 => 0x0035,
        340 => 0x002a,
        344 => 0x0036,
        341 => 0x001d,
        345 => 0x0e1d,
        342 => 0x0038,
        346 => 0x0e38,
        32 => 0x0039,
        282 => 0x0045,
        331 => 0x0e35,
        332 => 0x0037,
        333 => 0x004a,
        334 => 0x004e,
        335 => 0x0e1c,
        330 => 0x0053,
        320 => 0x0052,
        321 => 0x004f,
        322 => 0x0050,
        323 => 0x0051,
        324 => 0x004b,
        325 => 0x004c,
        326 => 0x004d,
        327 => 0x0047,
        328 => 0x0048,
        329 => 0x0049,
        265 => 0xe048,
        264 => 0xe050,
        263 => 0xe04b,
        262 => 0xe04d,
        266 => 0xe049,
        267 => 0xe051,
        268 => 0xe047,
        269 => 0xe04f,
        260 => 0xe052,
        261 => 0xe053,
        _ => (-1) as i32,
    }
}

/// The key that the apps know under a keycode; -1 where there is none.
pub open spec fn key_of_jnh(code: i32) -> i32 {
    match code {
        0x0001 => 256,
        0x003b => 290,
        0x003c => 291,
        0x003d => 292,
        0x003e => 293,
        0x003f => 294,
        0x0040 => 295,
        0x0041 => 296,
        0x0042 => 297,
        0x0043 => 298,
        0x0044 => 299,
        0x0057 => 300,
        0x0058 => 301,
        0x0029 => 96,
        0x0002 => 49,
        0x0003 => 50,
        0x0004 => 51,
        0x0005 => 52,
        0x0006 => 53,
        0x0007 => 54,
        0x0008 => 55,
        0x0009 => 56,
        0x000a => 57,
        0x000b => 48,
        0x000c => 45,
        0x000d => 61,
        0x000e => 259,
        0x000f => 258,
        0x0010 => 81,
        0x0011 => 87,
        0x0012 => 69,
        0x0013 => 82,
        0x0014 => 84,
        0x0015 => 89,
        0x0016 => 85,
        0x0017 => 73,
        0x0018 => 79,
        0x0019 => 80,
        0x001a => 91,
        0x001b => 93,
        0x002b => 92,
        0x003a => 280,
        0x001e => 65,
        0x001f => 83,
        0x0020 => 68,
        0x0021 => 70,
        0x0022 => 71,
        0x0023 => 72,
        0x0024 => 74,
        0x0025 => 75,
        0x0026 => 76,
        0x0027 => 59,
        0x0028 => 39,
        0x001c => 257,
        0x002c => 90,
        0x002d => 88,
        0x002e => 67,
        0x002f => 86,
        0x0030 => 66,
        0x0031 => 78,
        0x0032 => 77,
        0x0033 => 44,
        0x0034 => 46,
        0x0035 => 47,
        0x002a => 340,
        0x0036 => 344,
        0x001d => 341,
        0x0e1d => 345,
        0x0038 => 342,
        0x0e38 => 346,
        0x0039 => 32,
        0x0045 => 282,
        0x0e35 => 331,
        0x0037 => 332,
        0x004a => 333,
        0x004e => 334,
        0x0e1c => 335,
        0x0053 => 330,
        0x0052 => 320,
        0x004f => 321,
        0x0050 => 322,
        0x0051 => 323,
        0x004b => 324,
        0x004c => 325,
        0x004d => 326,
        0x0047 => 327,
        0x0048 => 328,
        0x0049 => 329,
        0xe048 => 265,
        0xe050 => 264,
        0xe04b => 263,
        0xe04d => 262,
        0xe049 => 266,
        0xe051 => 267,
        0xe047 => 268,
        0xe04f => 269,
        0xe052 => 260,
        0xe053 => 261,
        _ => (-1) as i32,
    }
}

pub fn glfw_key_to_jnh(key: i32) -> (r: i32)
    ensures
        r == jnh_code(key),
{
    match key {
        256 => 0x0001,
        290 => 0x003b,
        291 => 0x003c,
        292 => 0x003d,
        293 => 0x003e,
        294 => 0x003f,
        295 => 0x0040,
        296 => 0x0041,
        297 => 0x0042,
        298 => 0x0043,
        299 => 0x0044,
        300 => 0x0057,
        301 => 0x0058,
        96 => 0x0029,
        49 => 0x0002,
        50 => 0x0003,
        51 => 0x0004,
        52 => 0x0005,
        53 => 0x0006,
        54 => 0x0007,
        55 => 0x0008,
        56 => 0x0009,
        57 => 0x000a,
        48 => 0x000b,
        45 => 0x000c,
        61 => 0x000d,
        259 => 0x000e,
        258 => 0x000f,
        81 => 0x0010,
        87 => 0x0011,
        69 => 0x0012,
        82 => 0x0013,
        84 => 0x0014,
        89 => 0x0015,
        85 => 0x0016,
        73 => 0x0017,
        79 => 0x0018,
        80 => 0x0019,
        91 => 0x001a,
        93 => 0x001b,
        92 => 0x002b,
        280 => 0x003a,
        65 => 0x001e,
        83 => 0x001f,
        68 => 0x0020,
        70 => 0x0021,
        71 => 0x0022,
        72 => 0x0023,
        74 => 0x0024,
        75 => 0x0025,
        76 => 0x0026,
        59 => 0x0027,
        39 => 0x0028,
        257 => 0x001c,
        90 => 0x002c,
        88 => 0x002d,
        67 => 0x002e,
        86 => 0x002f,
        66 => 0x0030,
        78 => 0x0031,
        77 => 0x0032,
        44 => 0x0033,
        46 => 0x0034,
        47 => 0x0035,
        340 => 0x002a,
        344 => 0x0036,
        341 => 0x001d,
        345 => 0x0e1d,
        342 => 0x0038,
        346 => 0x0e38,
        32 => 0x0039,
        282 => 0x0045,
        331 => 0x0e35,
        332 => 0x0037,
        333 => 0x004a,
        334 => 0x004e,
        335 => 0x0e1c,
        330 => 0x0053,
        320 => 0x0052,
        321 => 0x004f,
        322 => 0x0050,
        323 => 0x0051,
        324 => 0x004b,
        325 => 0x004c,
        326 => 0x004d,
        327 => 0x0047,
        328 => 0x0048,
        329 => 0x0049,
        265 => 0xe048,
        264 => 0xe050,
        263 => 0xe04b,
        262 => 0xe04d,
        266 => 0xe049,
        267 => 0xe051,
        268 => 0xe047,
        269 => 0xe04f,
        260 => 0xe052,
        261 => 0xe053,
        _ => -1,
    }
}

/// No two known keys share a keycode.
pub proof fn law_keycodes_differ(a: i32, b: i32)
    requires
        jnh_code(a) != -1,
        jnh_code(a) == jnh_code(b),
    ensures
        a == b,
{
    lemma_key_of_jnh(a);
    lemma_key_of_jnh(b);
}

proof fn lemma_key_of_jnh(a: i32)
    requires
        jnh_code(a) != -1,
    ensures
        key_of_jnh(jnh_code(a)) == a,
{
}

/// Queues a key press for the companion apps; releases and keys without a
/// scancode of one byte are dropped.
pub fn push_app_key(q: &mut MacKeyQueue, key: i32, scancode: i32, mods: i32, pressed: bool)
    ensures
        final(q).events@ == if pressed && 0 < scancode <= 255 {
            old(q).events@.push(
                (scancode as u8, x11_mods(mods) as u16, jnh_code(key)),
            )
        } else {
            old(q).events@
        },
{
    if !pressed {
        return;
    }
    if scancode <= 0 || scancode > 255 {
        return;
    }
    let m: u16 = glfw_mods_to_x11(mods);
    let j: i32 = glfw_key_to_jnh(key);
    q.events.push((scancode as u8, m, j));
}

/// The line that tells an app of a key press.
pub open spec fn key_line_text(e: (u8, u16, i32)) -> Seq<char> {
    "KEY "@ + decimal_nat(e.0 as nat) + " "@ + decimal_nat(e.1 as nat) + " "@ + decimal(e.2 as int)
        + "\n"@
}

pub fn key_line(e: (u8, u16, i32)) -> (r: String)
    ensures
        r@ == key_line_text(e),
{
    let mut s: String = "KEY ".to_owned();
    push_nat(&mut s, e.0 as u64);
    s.append(" ");
    push_nat(&mut s, e.1 as u64);
    s.append(" ");
    push_int(&mut s, e.2 as i64);
    s.append("\n");
    s
}

/// The lines to write to every running app. Without a running app the presses
/// keep waiting; passing some on starts a burst of captures.
pub fn forward_pending_keys(q: &mut MacKeyQueue, burst: &mut u32, apps_running: bool) -> (r: Vec<
    String,
>)
    ensures
        apps_running ==> final(q).events@.len() == 0 && texts(r@) == old(q).events@.map_values(
            |e: (u8, u16, i32)| key_line_text(e),
        ),
        !apps_running ==> final(q).events@ == old(q).events@ && r@.len() == 0,
        *final(burst) == if apps_running && old(q).events@.len() > 0 {
            BURST_FRAMES
        } else {
            *old(burst)
        },
{
    let mut out: Vec<String> = Vec::new();
    if !apps_running {
        return out;
    }
    let mut events: Vec<(u8, u16, i32)> = Vec::new();
    core::mem::swap(&mut events, &mut q.events);
    if events.len() > 0 {
        *burst = BURST_FRAMES;
    }
    let mut i: usize = 0;
    assert(texts(out@) =~= events@.take(0).map_values(|e: (u8, u16, i32)| key_line_text(e)));
    while i < events.len()
        invariant
            i <= events@.len(),
            texts(out@) == events@.take(i as int).map_values(
                |e: (u8, u16, i32)| key_line_text(e),
            ),
        decreases events.len() - i,
    {
        push_text(&mut out, key_line(events[i]));
        i += 1;
        assert(events@.take(i as int) == events@.take(i - 1).push(events@[i - 1]));
        assert(texts(out@) =~= events@.take(i as int).map_values(
            |e: (u8, u16, i32)| key_line_text(e),
        ));
    }
    assert(events@.take(i as int) == events@);
    out
}

// ---------------------------------------------------------------------------
// Windows
// ---------------------------------------------------------------------------

/// The size of a window, as far as it matters here: whether both sides are
/// above 50 and above 100 points, whether they differ by less than ten, and
/// the area as the bits of its double.
#[derive(Clone, Copy, Debug, PartialEq, Eq, Structural)]
pub struct WindowSize {
    pub over_50: bool,
    pub over_100: bool,
    pub square: bool,
    pub area: u64,
}

/// What the system tells of a window.
pub struct WindowInfo {
    pub number: Option<i32>,
    pub layer: Option<i32>,
    pub size: Option<WindowSize>,
    pub title: Option<String>,
    pub pid: Option<i32>,
}

/// A window of a companion app: its number, its area, whether it has a title,
/// and its place in the list that it came from.
#[derive(Clone, Copy, Debug, PartialEq, Eq, Structural)]
pub struct MacWindow {
    pub id: u32,
    pub area: u64,
    pub titled: bool,
    pub index: usize,
}

pub open spec fn has_title(w: WindowInfo) -> bool {
    w.title matches Some(t) && t@.len() > 0
}

/// An untitled square window in the lowest layer, as class loaders make them.
pub open spec fn is_ghost(w: WindowInfo) -> bool {
    !has_title(w) && w.layer == Some(0i32) && (w.size matches Some(s) && s.square)
}

/// A window of process `pid` that may be an app's: of a normal layer, large
/// enough, no ghost, and not the game's own.
pub open spec fn is_candidate(w: WindowInfo, pid: u32) -> bool {
    &&& w.number matches Some(n) && n > 0
    &&& w.layer matches Some(l) && 0 <= l < 100
    &&& w.size matches Some(s) && s.over_50 && s.over_100
    &&& !is_ghost(w)
    &&& !(w.title matches Some(t) && contains(t@, "Minecraft"@))
    &&& w.pid matches Some(p) && p as u32 == pid
}

pub open spec fn window_of(w: WindowInfo, i: int) -> MacWindow {
    MacWindow {
        id: w.number->0 as u32,
        area: w.size->0.area,
        titled: has_title(w),
        index: i as usize,
    }
}

/// The candidates among the first `n` windows, in order.
pub open spec fn candidates(v: Seq<WindowInfo>, pid: u32, n: int) -> Seq<MacWindow>
    decreases n,
{
    if n <= 0 {
        Seq::empty()
    } else {
        let rest = candidates(v, pid, n - 1);
        if is_candidate(v[n - 1], pid) {
            rest.push(window_of(v[n - 1], n - 1))
        } else {
            rest
        }
    }
}

/// `a` comes before `b`: titled windows first, then the newer, whose number is
/// higher.
pub open spec fn comes_before(a: MacWindow, b: MacWindow) -> bool {
    (a.titled && !b.titled) || (a.titled == b.titled && a.id > b.id)
}

/// The place of `x` in an ordered list, behind those that it does not come
/// before.
pub open spec fn window_place(s: Seq<MacWindow>, x: MacWindow, i: int) -> int
    decreases s.len() - i,
{
    if 0 <= i < s.len() && !comes_before(x, s[i]) {
        window_place(s, x, i + 1)
    } else {
        i
    }
}

/// Windows in order, equal ones as they were.
pub open spec fn ordered(s: Seq<MacWindow>) -> Seq<MacWindow>
    decreases s.len(),
{
    if s.len() == 0 {
        Seq::empty()
    } else {
        let front = ordered(s.drop_last());
        front.insert(window_place(front, s.last(), 0), s.last())
    }
}

fn candidate(w: &WindowInfo, pid: u32, i: usize) -> (r: Option<MacWindow>)
    ensures
        r is Some <==> is_candidate(*w, pid),
        r matches Some(m) ==> m == window_of(*w, i as int),
{
    let n: i32 = match w.number {
        Some(n) => n,
        None => {
            return None;
        },
    };
    if n <= 0 {
        return None;
    }
    let layer: i32 = match w.layer {
        Some(l) => l,
        None => {
            return None;
        },
    };
    if layer < 0 || layer >= 100 {
        return None;
    }
    let size = match w.size {
        Some(s) => s,
        None => {
            return None;
        },
    };
    if !size.over_50 || !size.over_100 {
        return None;
    }
    let titled = match &w.title {
        Some(t) => !t.as_str().is_empty(),
        None => false,
    };
    if !titled && layer == 0 && size.square {
        return None;
    }
    if let Some(t) = &w.title {
        if has_text(t.as_str(), "Minecraft") {
            return None;
        }
    }
    match w.pid {
        Some(p) => {
            if p as u32 != pid {
                return None;
            }
        },
        None => {
            return None;
        },
    }
    Some(MacWindow { id: n as u32, area: size.area, titled, index: i })
}

/// The windows of a companion app, titled ones first and then the newer.
pub fn find_windows_by_pid(v: &Vec<WindowInfo>, pid: u32) -> (r: Vec<MacWindow>)
    ensures
        r@ == ordered(candidates(v@, pid, v@.len() as int)),
{
    let mut found: Vec<MacWindow> = Vec::new();
    let mut i: usize = 0;
    while i < v.len()
        invariant
            i <= v@.len(),
            found@ == candidates(v@, pid, i as int),
        decreases v.len() - i,
    {
        if let Some(m) = candidate(&v[i], pid, i) {
            found.push(m);
        }
        i += 1;
    }
    let mut out: Vec<MacWindow> = Vec::new();
    let mut k: usize = 0;
    assert(found@.take(0) =~= Seq::<MacWindow>::empty());
    while k < found.len()
        invariant
            k <= found@.len(),
            out@ == ordered(found@.take(k as int)),
        decreases found.len() - k,
    {
        let x = found[k];
        let mut p: usize = 0;
        while p < out.len() && !before(&x, &out[p])
            invariant
                p <= out@.len(),
                window_place(out@, x, 0) == window_place(out@, x, p as int),
            decreases out.len() - p,
        {
            p += 1;
        }
        out.insert(p, x);
        k += 1;
        assert(found@.take(k as int).drop_last() == found@.take(k - 1));
    }
    assert(found@.take(k as int) == found@);
    out
}

fn before(a: &MacWindow, b: &MacWindow) -> (r: bool)
    ensures
        r == comes_before(*a, *b),
{
    (a.titled && !b.titled) || (a.titled == b.titled && a.id > b.id)
}

/// The largest window, the last of those that are equally large.
pub open spec fn largest(s: Seq<MacWindow>) -> Option<MacWindow>
    decreases s.len(),
{
    if s.len() == 0 {
        None
    } else {
        match largest(s.drop_last()) {
            Some(m) => if s.last().area >= m.area {
                Some(s.last())
            } else {
                Some(m)
            },
            None => Some(s.last()),
        }
    }
}

pub fn largest_window(v: &Vec<MacWindow>) -> (r: Option<MacWindow>)
    ensures
        r == largest(v@),
{
    let mut best: Option<MacWindow> = None;
    let mut i: usize = 0;
    assert(v@.take(0) =~= Seq::<MacWindow>::empty());
    while i < v.len()
        invariant
            i <= v@.len(),
            best == largest(v@.take(i as int)),
        decreases v.len() - i,
    {
        assert(v@.take(i + 1).drop_last() == v@.take(i as int));
        match best {
            Some(m) => {
                if v[i].area >= m.area {
                    best = Some(v[i]);
                }
            },
            None => {
                best = Some(v[i]);
            },
        }
        i += 1;
    }
    assert(v@.take(i as int) == v@);
    best
}

/// No window of a list is larger than the largest, which is one of them.
pub proof fn law_largest(s: Seq<MacWindow>)
    ensures
        s.len() > 0 <==> largest(s) is Some,
        largest(s) matches Some(m) ==> s.contains(m) && forall|i: int|
            0 <= i < s.len() ==> (#[trigger] s[i]).area <= m.area,
    decreases s.len(),
{
    if s.len() > 0 {
        let front = s.drop_last();
        law_largest(front);
        if let Some(m) = largest(front) {
            let n = choose|n: int| 0 <= n < front.len() && front[n] == m;
            assert(s[n] == m);
            assert forall|i: int| 0 <= i < s.len() implies (#[trigger] s[i]).area
                <= largest(s)->0.area by {
                if i < front.len() {
                    assert(front[i].area <= m.area);
                }
            }
        }
        assert(s[s.len() - 1] == s.last());
    }
}

// ---------------------------------------------------------------------------
// Pixels
// ---------------------------------------------------------------------------

/// The rows of a picture that lie wholly inside its data: `stride` bytes from
/// one to the next, `w` pixels each.
pub open spec fn whole_rows(len: int, w: int, h: int, stride: int, n: int) -> int
    decreases h - n,
{
    if 0 <= n < h && n * stride + w * 4 <= len {
        whole_rows(len, w, h, stride, n + 1)
    } else {
        n
    }
}

/// A pixel with blue first as one with red first.
pub open spec fn strided_pixel(d: Seq<u8>, stride: int, opaque: bool, x: int, y: int) -> Seq<u8> {
    let p = y * stride + x * 4;
    seq![
        d[p + 2],
        d[p + 1],
        d[p],
        if opaque {
            255
        } else {
            d[p + 3]
        },
    ]
}

pub open spec fn strided_pixels(d: Seq<u8>, stride: int, opaque: bool) -> spec_fn(
    int,
    int,
) -> Seq<u8> {
    |x: int, y: int| strided_pixel(d, stride, opaque, x, y)
}

/// A picture with padded rows and blue first as one with red first; it ends at
/// the first row that is not wholly there.
pub fn strided_to_rgba(d: &[u8], w: usize, h: usize, stride: usize, opaque: bool) -> (r: Vec<u8>)
    ensures
        r@ == image_bytes(
            strided_pixels(d@, stride as int, opaque),
            w as nat,
            whole_rows(d@.len() as int, w as int, h as int, stride as int, 0) as nat,
        ),
{
    let ghost px = strided_pixels(d@, stride as int, opaque);
    let mut out: Vec<u8> = Vec::new();
    let mut y: usize = 0;
    while y < h
        invariant_except_break
            y <= h,
            px == strided_pixels(d@, stride as int, opaque),
            whole_rows(d@.len() as int, w as int, h as int, stride as int, 0) == whole_rows(
                d@.len() as int,
                w as int,
                h as int,
                stride as int,
                y as int,
            ),
            out@ == image_bytes(px, w as nat, y as nat),
        ensures
            out@ == image_bytes(
                px,
                w as nat,
                whole_rows(d@.len() as int, w as int, h as int, stride as int, 0) as nat,
            ),
        decreases h - y,
    {
        assert(0 <= y * stride <= u64::MAX * u64::MAX) by (nonlinear_arith)
            requires
                0 <= y <= u64::MAX,
                0 <= stride <= u64::MAX,
        ;
        let start: u128 = y as u128 * stride as u128;
        if w as u128 * 4 > d.len() as u128 || start > d.len() as u128 - w as u128 * 4 {
            break;
        }
        let row: usize = start as usize;
        let mut x: usize = 0;
        while x < w
            invariant
                x <= w,
                row == y * stride,
                row + w * 4 <= d.len(),
                px == strided_pixels(d@, stride as int, opaque),
                out@ == image_bytes(px, w as nat, y as nat) + row_bytes(px, y as int, x as nat),
            decreases w - x,
        {
            let p: usize = row + x * 4;
            let alpha: u8 = if opaque {
                255
            } else {
                d[p + 3]
            };
            push_pixel(&mut out, d[p + 2], d[p + 1], d[p], alpha);
            x += 1;
            assert(out@ =~= image_bytes(px, w as nat, y as nat) + row_bytes(
                px,
                y as int,
                x as nat,
            ));
        }
        y += 1;
    }
    out
}

/// A byte differs visibly from another.
pub open spec fn far_apart(a: u8, b: u8) -> bool {
    a - b > 8 || b - a > 8
}

/// Sample `k` of a picture, on a grid of four by four, differs from the first
/// pixel.
pub open spec fn sample_differs(p: Seq<u8>, w: int, h: int, k: int) -> bool {
    let x = ((k % 4) * 2 + 1) * w / 8;
    let y = ((k / 4) * 2 + 1) * h / 8;
    let i = (y * w + x) * 4;
    far_apart(p[i], p[0]) || far_apart(p[i + 1], p[1]) || far_apart(p[i + 2], p[2])
}

/// How many of the first `k` samples differ from the first pixel.
pub open spec fn differing(p: Seq<u8>, w: int, h: int, k: int) -> int
    decreases k,
{
    if k <= 0 {
        0
    } else {
        differing(p, w, h, k - 1) + if sample_differs(p, w, h, k - 1) {
            1int
        } else {
            0int
        }
    }
}

/// A picture shows something: it is complete, and at least two samples differ
/// from the first pixel.
pub open spec fn shows_content(p: Seq<u8>, w: int, h: int) -> bool {
    w > 0 && h > 0 && p.len() >= w * h * 4 && differing(p, w, h, 16) >= 2
}

fn apart(a: u8, b: u8) -> (r: bool)
    ensures
        r == far_apart(a, b),
{
    if a > b {
        a - b > 8
    } else {
        b - a > 8
    }
}

/// Whether a picture shows more than one color.
pub fn frame_has_content(pixels: &[u8], w: u32, h: u32) -> (r: bool)
    ensures
        r == shows_content(pixels@, w as int, h as int),
{
    assert(0 <= w * h <= u32::MAX * u32::MAX) by (nonlinear_arith)
        requires
            0 <= w <= u32::MAX,
            0 <= h <= u32::MAX,
    ;
    let need: u128 = w as u128 * h as u128 * 4;
    if w == 0 || h == 0 || (pixels.len() as u128) < need {
        return false;
    }
    assert(w * h * 4 >= 4) by (nonlinear_arith)
        requires
            w >= 1,
            h >= 1,
    ;
    let mut different: u32 = 0;
    let mut k: u32 = 0;
    while k < 16
        invariant
            k <= 16,
            w > 0,
            h > 0,
            pixels@.len() >= w * h * 4,
            pixels@.len() >= 4,
            different <= k,
            different as int == differing(pixels@, w as int, h as int, k as int),
        decreases 16 - k,
    {
        let gx: u64 = ((k % 4) * 2 + 1) as u64;
        let gy: u64 = ((k / 4) * 2 + 1) as u64;
        assert(gx * w <= 7 * w) by (nonlinear_arith)
            requires
                gx <= 7,
                w >= 0,
        ;
        assert(gy * h <= 7 * h) by (nonlinear_arith)
            requires
                gy <= 7,
                h >= 0,
        ;
        let x: u64 = gx * w as u64 / 8;
        let y: u64 = gy * h as u64 / 8;
        assert(x < w && y < h);
        assert(y * w + x < w * h) by (nonlinear_arith)
            requires
                0 <= x < w,
                0 <= y < h,
        ;
        assert(0 <= y * w) by (nonlinear_arith)
            requires
                0 <= y,
                0 <= w,
        ;
        let n: usize = pixels.len();
        assert((y * w + x) * 4 + 3 < n);
        let i: usize = ((y * w as u64 + x) * 4) as usize;
        if apart(pixels[i], pixels[0]) || apart(pixels[i + 1], pixels[1]) || apart(
            pixels[i + 2],
            pixels[2],
        ) {
            different += 1;
        }
        k += 1;
    }
    different >= 2
}

// ---------------------------------------------------------------------------
// Captures by an outside program
// ---------------------------------------------------------------------------

/// When the outside program may run: while a burst lasts, ten times a second;
/// else every two seconds.
pub struct ProgramThrottle {
    pub burst: u32,
    pub last_burst: Option<u64>,
    pub last_idle: Option<u64>,
}

/// `now` is less than `wait` nanoseconds after the last time.
pub open spec fn too_soon(last: Option<u64>, now: u64, wait: u64) -> bool {
    last matches Some(t) && elapsed(t, now) < wait
}

/// The time from `t` to `now`; none where `t` is later.
pub open spec fn elapsed(t: u64, now: u64) -> int {
    if now >= t {
        now - t
    } else {
        0
    }
}

impl ProgramThrottle {
    pub fn new() -> (r: ProgramThrottle)
        ensures
            r.burst == 0,
            r.last_burst is None,
            r.last_idle is None,
    {
        ProgramThrottle { burst: 0, last_burst: None, last_idle: None }
    }

    /// Whether the program may run now. A burst is used up by one, whether it
    /// may or not.
    pub fn may_run(&mut self, now: u64) -> (r: bool)
        ensures
            old(self).burst > 0 ==> {
                &&& r == !too_soon(old(self).last_burst, now, CAPTURE_INTERVAL)
                &&& final(self).burst == old(self).burst - 1
                &&& final(self).last_burst == if r {
                    Some(now)
                } else {
                    old(self).last_burst
                }
                &&& final(self).last_idle == old(self).last_idle
            },
            old(self).burst == 0 ==> {
                &&& r == !too_soon(old(self).last_idle, now, IDLE_INTERVAL)
                &&& final(self).burst == 0
                &&& final(self).last_burst == old(self).last_burst
                &&& final(self).last_idle == if r {
                    Some(now)
                } else {
                    old(self).last_idle
                }
            },
    {
        if self.burst > 0 {
            self.burst = self.burst - 1;
            if let Some(t) = self.last_burst {
                if now.saturating_sub(t) < CAPTURE_INTERVAL {
                    return false;
                }
            }
            self.last_burst = Some(now);
        } else {
            if let Some(t) = self.last_idle {
                if now.saturating_sub(t) < IDLE_INTERVAL {
                    return false;
                }
            }
            self.last_idle = Some(now);
        }
        true
    }
}

/// Why a capture from the window list gave no picture.
#[derive(Clone, Copy, Debug, PartialEq, Eq, Structural)]
pub enum CaptureFailure {
    NullImage { methods_tried: u8 },
    ZeroSize(usize, usize),
    NullProvider,
    NullData,
}

/// The first of four methods that gave an image; the methods count from 1.
pub open spec fn first_method(ok: Seq<bool>) -> Option<int> {
    if ok[0] {
        Some(1)
    } else if ok[1] {
        Some(2)
    } else if ok[2] {
        Some(3)
    } else if ok[3] {
        Some(4)
    } else {
        None
    }
}

/// What came of an image from the window list: the method that gave it, if it
/// is not empty and its bytes are there.
pub fn capture_outcome(
    ok: [bool; 4],
    width: usize,
    height: usize,
    provider: bool,
    data: bool,
) -> (r: Result<u8, CaptureFailure>)
    ensures
        r == match first_method(ok@) {
            None => Err(CaptureFailure::NullImage { methods_tried: 4 }),
            Some(m) => if width == 0 || height == 0 {
                Err(CaptureFailure::ZeroSize(width, height))
            } else if !provider {
                Err(CaptureFailure::NullProvider)
            } else if !data {
                Err(CaptureFailure::NullData)
            } else {
                Ok(m as u8)
            },
        },
{
    let method: u8 = if ok[0] {
        1
    } else if ok[1] {
        2
    } else if ok[2] {
        3
    } else if ok[3] {
        4
    } else {
        return Err(CaptureFailure::NullImage { methods_tried: 4 });
    };
    if width == 0 || height == 0 {
        return Err(CaptureFailure::ZeroSize(width, height));
    }
    if !provider {
        return Err(CaptureFailure::NullProvider);
    }
    if !data {
        return Err(CaptureFailure::NullData);
    }
    Ok(method)
}

// ---------------------------------------------------------------------------
// Streams
// ---------------------------------------------------------------------------

/// A picture from a stream.
pub struct StreamFrame {
    pub pixels: Vec<u8>,
    pub width: u32,
    pub height: u32,
}

/// The capture streams: the windows for which one was asked, those for which it
/// was asked a second time, those on which it gave up, when each was asked for,
/// the streams that run with their delegates, the window of each delegate, and
/// the newest picture of each window.
pub struct Streams {
    pub starting: HashSet<u32>,
    pub restarted: HashSet<u32>,
    pub gave_up: HashSet<u32>,
    pub started_at: HashMap<u32, u64>,
    pub running: Vec<(u32, u64)>,
    pub delegates: HashMap<u64, u32>,
    pub frames: HashMap<u32, StreamFrame>,
}

/// What `Streams` stands for.
#[verifier::ext_equal]
pub struct StreamState {
    pub starting: Set<u32>,
    pub restarted: Set<u32>,
    pub gave_up: Set<u32>,
    pub started_at: Map<u32, u64>,
    pub running: Seq<(u32, u64)>,
    pub delegates: Map<u64, u32>,
    pub frames: Map<u32, StreamFrame>,
}

impl View for Streams {
    type V = StreamState;

    open spec fn view(&self) -> StreamState {
        StreamState {
            starting: self.starting@,
            restarted: self.restarted@,
            gave_up: self.gave_up@,
            started_at: self.started_at@,
            running: self.running@,
            delegates: self.delegates@,
            frames: self.frames@,
        }
    }
}

/// The pictures without those of the running streams.
pub open spec fn without_frames(m: Map<u32, StreamFrame>, v: Seq<(u32, u64)>) -> Map<
    u32,
    StreamFrame,
>
    decreases v.len(),
{
    if v.len() == 0 {
        m
    } else {
        without_frames(m, v.drop_last()).remove(v.last().0)
    }
}

/// The delegates without those of the running streams.
pub open spec fn without_delegates(m: Map<u64, u32>, v: Seq<(u32, u64)>) -> Map<u64, u32>
    decreases v.len(),
{
    if v.len() == 0 {
        m
    } else {
        without_delegates(m, v.drop_last()).remove(v.last().1)
    }
}

/// After all streams were let go: nothing is asked for, and what they still
/// deliver has no window any more.
pub open spec fn all_stopped(s: StreamState) -> StreamState {
    StreamState {
        starting: Set::empty(),
        restarted: Set::empty(),
        gave_up: Set::empty(),
        started_at: Map::empty(),
        running: Seq::empty(),
        delegates: without_delegates(s.delegates, s.running),
        frames: without_frames(s.frames, s.running),
    }
}

/// After a stream was asked for; one that was asked for already goes on.
pub open spec fn maybe_started(s: StreamState, window: u32, now: u64) -> StreamState {
    if s.starting.contains(window) {
        s
    } else {
        StreamState {
            starting: Set::empty().insert(window),
            started_at: Map::empty().insert(window, now),
            ..all_stopped(s)
        }
    }
}

/// The running streams after that of a window was stored.
pub open spec fn with_stream(v: Seq<(u32, u64)>, window: u32, delegate: u64) -> Seq<(u32, u64)>
    decreases v.len(),
{
    if v.len() == 0 {
        seq![(window, delegate)]
    } else if v[0].0 == window {
        v.update(0, (window, delegate))
    } else {
        seq![v[0]] + with_stream(v.skip(1), window, delegate)
    }
}

/// After a stream stopped by itself: one that never gave a picture is given up.
pub open spec fn stream_stopped(s: StreamState, delegate: u64) -> StreamState {
    if s.delegates.contains_key(delegate) {
        let window = s.delegates[delegate];
        StreamState {
            starting: s.starting.remove(window),
            gave_up: if s.frames.contains_key(window) {
                s.gave_up
            } else {
                s.gave_up.insert(window)
            },
            ..s
        }
    } else {
        s
    }
}

/// After the setup of a window's stream was done: it is kept if it is still
/// asked for, else its delegate is forgotten.
pub open spec fn setup_done(s: StreamState, window: u32, delegate: u64) -> StreamState {
    if s.starting.contains(window) {
        StreamState { running: with_stream(s.running, window, delegate), ..s }
    } else {
        StreamState { delegates: s.delegates.remove(delegate), ..s }
    }
}

/// A stream is stuck: it was asked for long ago.
pub open spec fn is_stuck(s: StreamState, window: u32, now: u64) -> bool {
    s.started_at.contains_key(window) && elapsed(s.started_at[window], now) > STUCK_AFTER
}

impl Streams {
    pub fn new() -> (r: Streams)
        ensures
            r@ == (StreamState {
                starting: Set::empty(),
                restarted: Set::empty(),
                gave_up: Set::empty(),
                started_at: Map::empty(),
                running: Seq::empty(),
                delegates: Map::empty(),
                frames: Map::empty(),
            }),
    {
        Streams {
            starting: HashSet::new(),
            restarted: HashSet::new(),
            gave_up: HashSet::new(),
            started_at: HashMap::new(),
            running: Vec::new(),
            delegates: HashMap::new(),
            frames: HashMap::new(),
        }
    }

    /// Lets go of all streams.
    pub fn stop_all(&mut self)
        ensures
            final(self)@ == all_stopped(old(self)@),
    {
        self.starting = HashSet::new();
        self.restarted = HashSet::new();
        self.gave_up = HashSet::new();
        self.started_at = HashMap::new();
        let mut running: Vec<(u32, u64)> = Vec::new();
        core::mem::swap(&mut running, &mut self.running);
        let ghost delegates = self.delegates@;
        let ghost frames = self.frames@;
        let mut i: usize = 0;
        assert(running@.take(0) =~= Seq::<(u32, u64)>::empty());
        while i < running.len()
            invariant
                i <= running@.len(),
                self.delegates@ == without_delegates(delegates, running@.take(i as int)),
                self.frames@ == without_frames(frames, running@.take(i as int)),
                self.starting@ == Set::<u32>::empty(),
                self.restarted@ == Set::<u32>::empty(),
                self.gave_up@ == Set::<u32>::empty(),
                self.started_at@ == Map::<u32, u64>::empty(),
                self.running@ == Seq::<(u32, u64)>::empty(),
            decreases running.len() - i,
        {
            let (window, delegate) = running[i];
            self.delegates.remove(&delegate);
            self.frames.remove(&window);
            i += 1;
            assert(running@.take(i as int).drop_last() == running@.take(i - 1));
        }
        assert(running@.take(i as int) == running@);
    }

    /// Asks for a window's stream. The result tells whether it is to be set up:
    /// only one stream is served at a time, so all others are let go.
    pub fn maybe_start(&mut self, window: u32, now: u64) -> (r: bool)
        ensures
            final(self)@ == maybe_started(old(self)@, window, now),
            r == !old(self)@.starting.contains(window),
    {
        if self.starting.contains(&window) {
            return false;
        }
        self.stop_all();
        self.starting.insert(window);
        self.started_at.insert(window, now);
        true
    }

    /// Reports the delegate of a stream that is being set up.
    pub fn delegate_made(&mut self, delegate: u64, window: u32)
        ensures
            final(self)@ == (StreamState {
                delegates: old(self)@.delegates.insert(delegate, window),
                ..old(self)@
            }),
    {
        self.delegates.insert(delegate, window);
    }

    /// Reports that the setup of a window's stream is done. The result tells
    /// whether the stream is still wanted.
    pub fn setup_done(&mut self, window: u32, delegate: u64) -> (r: bool)
        ensures
            final(self)@ == setup_done(old(self)@, window, delegate),
            r == old(self)@.starting.contains(window),
    {
        if !self.starting.contains(&window) {
            self.delegates.remove(&delegate);
            return false;
        }
        let ghost before = self.running@;
        let mut i: usize = 0;
        assert(before.skip(0) == before);
        while i < self.running.len() && self.running[i].0 != window
            invariant
                i <= self.running@.len(),
                self.running@ == before,
                with_stream(before, window, delegate) == before.take(i as int) + with_stream(
                    before.skip(i as int),
                    window,
                    delegate,
                ),
                self.starting@ == old(self)@.starting,
                self.restarted@ == old(self)@.restarted,
                self.gave_up@ == old(self)@.gave_up,
                self.started_at@ == old(self)@.started_at,
                self.delegates@ == old(self)@.delegates,
                self.frames@ == old(self)@.frames,
            decreases self.running.len() - i,
        {
            proof {
                let rest = before.skip(i as int);
                assert(rest[0] == before[i as int]);
                assert(rest.skip(1) == before.skip(i + 1));
                assert(before.take(i as int) + (seq![rest[0]] + with_stream(
                    rest.skip(1),
                    window,
                    delegate,
                )) == before.take(i + 1) + with_stream(before.skip(i + 1), window, delegate));
            }
            i += 1;
        }
        if i < self.running.len() {
            self.running.set(i, (window, delegate));
            assert(before.skip(i as int)[0] == before[i as int]);
            assert(self.running@ == before.take(i as int) + before.skip(i as int).update(
                0,
                (window, delegate),
            ));
        } else {
            self.running.push((window, delegate));
            assert(before.skip(i as int).len() == 0);
            assert(self.running@ == before.take(i as int) + seq![(window, delegate)]);
        }
        true
    }

    /// Reports that a window's stream could not be set up.
    pub fn setup_failed(&mut self, window: u32)
        ensures
            final(self)@ == (StreamState {
                starting: old(self)@.starting.remove(window),
                ..old(self)@
            }),
    {
        self.starting.remove(&window);
    }

    /// Reports a picture of a stream. One whose delegate has no window, and an
    /// empty one, are dropped.
    pub fn on_output(&mut self, delegate: u64, data: &[u8], width: usize, height: usize, stride: usize)
        ensures
            !old(self)@.delegates.contains_key(delegate) || width == 0 || height == 0
                ==> final(self)@ == old(self)@,
            old(self)@.delegates.contains_key(delegate) && width > 0 && height > 0 ==> {
                let w = old(self)@.delegates[delegate];
                let f = final(self)@.frames[w];
                &&& final(self)@ == (StreamState {
                    frames: old(self)@.frames.insert(w, f),
                    ..old(self)@
                })
                &&& f.pixels@ == image_bytes(
                    strided_pixels(data@, stride as int, true),
                    width as nat,
                    whole_rows(
                        data@.len() as int,
                        width as int,
                        height as int,
                        stride as int,
                        0,
                    ) as nat,
                )
                &&& f.width == width as u32
                &&& f.height == height as u32
            },
    {
        let window: u32 = match self.delegates.get(&delegate) {
            Some(w) => *w,
            None => {
                return ;
            },
        };
        if width == 0 || height == 0 {
            return ;
        }
        let f = StreamFrame {
            pixels: strided_to_rgba(data, width, height, stride, true),
            width: width as u32,
            height: height as u32,
        };
        self.frames.insert(window, f);
    }

    /// Reports that a stream stopped by itself.
    pub fn on_stop(&mut self, delegate: u64)
        ensures
            final(self)@ == stream_stopped(old(self)@, delegate),
    {
        let window: u32 = match self.delegates.get(&delegate) {
            Some(w) => *w,
            None => {
                return ;
            },
        };
        self.starting.remove(&window);
        if !self.frames.contains_key(&window) {
            self.gave_up.insert(window);
        }
    }

    /// The newest picture of a window.
    pub fn frame(&self, window: u32) -> (r: Option<StreamFrame>)
        ensures
            r is Some <==> self@.frames.contains_key(window),
            r matches Some(f) ==> f.pixels@ == self@.frames[window].pixels@ && f.width
                == self@.frames[window].width && f.height == self@.frames[window].height,
    {
        match self.frames.get(&window) {
            Some(f) => Some(
                StreamFrame { pixels: copy_bytes(&f.pixels), width: f.width, height: f.height },
            ),
            None => None,
        }
    }

    fn stuck(&self, window: u32, now: u64) -> (r: bool)
        ensures
            r == is_stuck(self@, window, now),
    {
        match self.started_at.get(&window) {
            Some(t) => now.saturating_sub(*t) > STUCK_AFTER,
            None => false,
        }
    }
}

/// The place of a window in a list of the system's windows.
pub open spec fn window_index(ids: Seq<Option<u32>>, window: u32, i: int) -> Option<int>
    decreases ids.len() - i,
{
    if 0 <= i < ids.len() {
        if ids[i] == Some(window) {
            Some(i)
        } else {
            window_index(ids, window, i + 1)
        }
    } else {
        None
    }
}

/// Finds the window that a stream is for; places without a window are passed
/// over.
pub fn find_stream_window(ids: &Vec<Option<u32>>, window: u32) -> (r: Option<usize>)
    ensures
        r is Some <==> window_index(ids@, window, 0) is Some,
        r matches Some(i) ==> window_index(ids@, window, 0) == Some(i as int),
{
    let mut i: usize = 0;
    while i < ids.len()
        invariant
            i <= ids@.len(),
            window_index(ids@, window, 0) == window_index(ids@, window, i as int),
        decreases ids.len() - i,
    {
        if let Some(w) = ids[i] {
            if w == window {
                return Some(i);
            }
        }
        i += 1;
    }
    None
}

/// At most one stream is asked for.
pub open spec fn one_stream(s: StreamState) -> bool {
    forall|a: u32, b: u32| #[trigger]
        s.starting.contains(a) && #[trigger] s.starting.contains(b) ==> a == b
}

/// Whatever happens to the streams, at most one is asked for at a time.
pub proof fn law_one_stream_at_a_time(s: StreamState, window: u32, delegate: u64, now: u64)
    requires
        one_stream(s),
    ensures
        one_stream(maybe_started(s, window, now)),
        one_stream(all_stopped(s)),
        one_stream(stream_stopped(s, delegate)),
        one_stream(setup_done(s, window, delegate)),
{
    let t = maybe_started(s, window, now);
    assert forall|a: u32, b: u32| #[trigger]
        t.starting.contains(a) && #[trigger] t.starting.contains(b) implies a == b by {
        if s.starting.contains(window) {
            assert(s.starting.contains(a) && s.starting.contains(b));
        }
    }
    let u = stream_stopped(s, delegate);
    assert forall|a: u32, b: u32| #[trigger]
        u.starting.contains(a) && #[trigger] u.starting.contains(b) implies a == b by {
        assert(s.starting.contains(a) && s.starting.contains(b));
    }
}

/// A stream that was let go is mute: its delegate has no window, so neither its
/// pictures nor its end change anything.
pub proof fn law_stopped_streams_are_mute(s: StreamState, i: int)
    requires
        0 <= i < s.running.len(),
    ensures
        !all_stopped(s).delegates.contains_key(s.running[i].1),
        stream_stopped(all_stopped(s), s.running[i].1) == all_stopped(s),
        !all_stopped(s).frames.contains_key(s.running[i].0),
{
    lemma_without(s.delegates, s.frames, s.running, i);
}

proof fn lemma_without(
    d: Map<u64, u32>,
    f: Map<u32, StreamFrame>,
    v: Seq<(u32, u64)>,
    i: int,
)
    requires
        0 <= i < v.len(),
    ensures
        !without_delegates(d, v).contains_key(v[i].1),
        !without_frames(f, v).contains_key(v[i].0),
    decreases v.len(),
{
    if i < v.len() - 1 {
        lemma_without(d, f, v.drop_last(), i);
    }
}

// ---------------------------------------------------------------------------
// From a window to its picture
// ---------------------------------------------------------------------------

/// A companion app's window.
pub struct EmbeddedWindow {
    pub window_id: u32,
    pub pixels: Option<Vec<u8>>,
    pub width: u32,
    pub height: u32,
    pub last_capture: u64,
    pub found_at_frame: u64,
    /// That captures fail was said.
    pub warned_capture: bool,
    /// The window was moved away.
    pub hidden: bool,
    pub working_method: u8,
    pub first_capture: Option<u64>,
}

/// What is to be done next for an app's window.
#[derive(Clone, Copy, Debug, PartialEq, Eq, Structural)]
pub enum MacStep {
    /// Nothing in this frame.
    Nothing,
    /// Look for the app's windows, then report.
    FindWindows,
    /// Look for the app's windows again, then report.
    Rediscover,
    /// Ask for the way to capture it.
    Poll,
    /// Show the last picture.
    Show,
}

/// A way to get a picture of a window.
#[derive(Clone, Copy, Debug, PartialEq, Eq, Structural)]
pub enum Attempt {
    /// From the window server.
    Hardware,
    /// From the window list.
    List,
    /// By an outside program.
    Program,
}

/// How a picture of a window is to be got.
pub enum PollStep {
    /// Not now: show the last picture.
    Show,
    /// Take this picture of the stream.
    UseStream { pixels: Vec<u8>, width: u32, height: u32 },
    /// Set up the window's stream anew, and show the last picture.
    Restart,
    /// Make this attempt; if it fails the next, and the program only where it
    /// is `allowed`.
    Try { attempt: Attempt, allowed: bool },
}

/// The attempt that follows a failed one.
pub open spec fn attempt_after(a: Attempt, allowed: bool) -> Option<Attempt> {
    match a {
        Attempt::Hardware => Some(Attempt::List),
        Attempt::List => if allowed {
            Some(Attempt::Program)
        } else {
            None
        },
        Attempt::Program => None,
    }
}

pub fn next_attempt(a: Attempt, allowed: bool) -> (r: Option<Attempt>)
    ensures
        r == attempt_after(a, allowed),
{
    match a {
        Attempt::Hardware => Some(Attempt::List),
        Attempt::List => {
            if allowed {
                Some(Attempt::Program)
            } else {
                None
            }
        },
        Attempt::Program => None,
    }
}

/// The companion apps.
pub struct AppCaptureManager {
    pub embedded: HashMap<u32, EmbeddedWindow>,
    pub search_fails: HashMap<u32, u32>,
    pub frame: u64,
    pub visible: bool,
    pub streams: Streams,
}

/// What `AppCaptureManager` stands for.
#[verifier::ext_equal]
pub struct MacState {
    pub embedded: Map<u32, EmbeddedWindow>,
    pub search_fails: Map<u32, u32>,
    pub frame: u64,
    pub visible: bool,
    pub streams: StreamState,
}

impl View for AppCaptureManager {
    type V = MacState;

    open spec fn view(&self) -> MacState {
        MacState {
            embedded: self.embedded@,
            search_fails: self.search_fails@,
            frame: self.frame,
            visible: self.visible,
            streams: self.streams@,
        }
    }
}

/// A window that was just found.
pub open spec fn new_window(id: u32, frame: u64, now: u64) -> EmbeddedWindow {
    EmbeddedWindow {
        window_id: id,
        pixels: None,
        width: 0,
        height: 0,
        last_capture: elapsed(CAPTURE_INTERVAL, now) as u64,
        found_at_frame: frame,
        warned_capture: false,
        hidden: false,
        working_method: 0,
        first_capture: None,
    }
}

/// A larger window is still looked for.
pub open spec fn in_discovery(e: EmbeddedWindow, now: u64) -> bool {
    match e.first_capture {
        Some(t) => elapsed(t, now) < DISCOVERY_TIME,
        None => true,
    }
}

/// What follows for a window that is known.
pub open spec fn known_step(e: EmbeddedWindow, s: MacState, now: u64) -> MacStep {
    if s.frame.wrapping_sub(e.found_at_frame) < STABILIZATION_FRAMES || !s.visible {
        MacStep::Nothing
    } else if !s.streams.starting.contains(e.window_id) || (in_discovery(e, now) && s.frame % 30
        == 0) {
        MacStep::Rediscover
    } else {
        MacStep::Poll
    }
}

/// A window that gave way to a larger one.
pub open spec fn switched(e: EmbeddedWindow, id: u32) -> EmbeddedWindow {
    EmbeddedWindow {
        window_id: id,
        pixels: None,
        width: 0,
        height: 0,
        warned_capture: false,
        hidden: false,
        working_method: 0,
        ..e
    }
}

/// A window that was replaced by another, whose last picture is still shown.
pub open spec fn retargeted(e: EmbeddedWindow, id: u32) -> EmbeddedWindow {
    EmbeddedWindow {
        window_id: id,
        warned_capture: false,
        hidden: false,
        working_method: 0,
        ..e
    }
}

/// A window after a picture of it was taken.
pub open spec fn pictured(
    e: EmbeddedWindow,
    pixels: Vec<u8>,
    width: u32,
    height: u32,
    method: u8,
    now: u64,
) -> EmbeddedWindow {
    EmbeddedWindow {
        pixels: Some(pixels),
        width,
        height,
        last_capture: now,
        working_method: method,
        hidden: e.hidden || method <= LAST_HIDING_METHOD,
        first_capture: if e.pixels is None {
            Some(now)
        } else {
            e.first_capture
        },
        ..e
    }
}

/// Whether a list holds a window.
pub open spec fn lists_window(v: Seq<MacWindow>, id: u32) -> bool {
    exists|i: int| 0 <= i < v.len() && (#[trigger] v[i]).id == id
}

/// The app has a window that is larger than the captured one.
pub open spec fn has_larger(windows: Seq<MacWindow>, id: u32) -> bool {
    largest(windows) matches Some(b) && b.id != id
}

/// The streams after a window gave way to a larger one, before the new one's is
/// asked for.
pub open spec fn given_way(s: StreamState, from: u32, to: u32) -> StreamState {
    StreamState { gave_up: s.gave_up.remove(to), frames: s.frames.remove(from), ..s }
}

/// Everything after the windows of an app were looked for again.
pub open spec fn after_rediscovery(s: MacState, pid: u32, windows: Seq<MacWindow>, now: u64) -> MacState {
    let e = s.embedded[pid];
    if has_larger(windows, e.window_id) {
        let id = largest(windows)->0.id;
        MacState {
            embedded: s.embedded.insert(pid, switched(e, id)),
            streams: maybe_started(given_way(s.streams, e.window_id, id), id, now),
            ..s
        }
    } else if !s.streams.starting.contains(e.window_id) && !s.streams.gave_up.contains(e.window_id)
        && lists_window(windows, e.window_id) {
        MacState { streams: maybe_started(s.streams, e.window_id, now), ..s }
    } else {
        s
    }
}

/// What follows after the windows of an app were looked for again.
pub open spec fn step_after_rediscovery(s: MacState, pid: u32, windows: Seq<MacWindow>) -> MacStep {
    let e = s.embedded[pid];
    if has_larger(windows, e.window_id) {
        MacStep::Show
    } else if s.streams.starting.contains(e.window_id) || s.streams.gave_up.contains(e.window_id) {
        MacStep::Poll
    } else {
        MacStep::Show
    }
}

/// It is time for a picture.
pub open spec fn is_due(e: EmbeddedWindow, now: u64) -> bool {
    e.pixels is None || elapsed(e.last_capture, now) >= if e.working_method == METHOD_STREAM {
        STREAM_INTERVAL
    } else {
        CAPTURE_INTERVAL
    }
}

/// A stream that gave no picture yet is set up anew, once.
pub open spec fn restarts(e: EmbeddedWindow, s: StreamState, now: u64) -> bool {
    let w = e.window_id;
    is_due(e, now) && !s.frames.contains_key(w) && s.starting.contains(w) && !s.gave_up.contains(w)
        && is_stuck(s, w, now) && !s.restarted.contains(w)
}

/// A stream that gave no picture though it was set up anew is left.
pub open spec fn leaves_stream(e: EmbeddedWindow, s: StreamState, now: u64) -> bool {
    let w = e.window_id;
    is_due(e, now) && !s.frames.contains_key(w) && s.starting.contains(w) && !s.gave_up.contains(w)
        && is_stuck(s, w, now) && s.restarted.contains(w)
}

/// The streams after the way to capture a window was asked for.
pub open spec fn streams_after_poll(e: EmbeddedWindow, s: StreamState, now: u64) -> StreamState {
    let w = e.window_id;
    let without = StreamState { starting: s.starting.remove(w), ..s };
    if restarts(e, s, now) {
        let t = maybe_started(without, w, now);
        StreamState { restarted: t.restarted.insert(w), ..t }
    } else if leaves_stream(e, s, now) {
        without
    } else {
        s
    }
}

/// How a window is to be captured.
pub open spec fn polled(r: PollStep, e: EmbeddedWindow, s: StreamState, now: u64) -> bool {
    let w = e.window_id;
    if !is_due(e, now) {
        r is Show
    } else if s.frames.contains_key(w) {
        r matches PollStep::UseStream { pixels, width, height } && pixels@ == s.frames[w].pixels@
            && width == s.frames[w].width && height == s.frames[w].height
    } else if !s.starting.contains(w) || s.gave_up.contains(w) {
        r == (PollStep::Try { attempt: Attempt::Hardware, allowed: s.gave_up.contains(w) })
    } else if !is_stuck(s, w, now) {
        r is Show
    } else if !s.restarted.contains(w) {
        r is Restart
    } else {
        r == (PollStep::Try { attempt: Attempt::List, allowed: true })
    }
}

/// Everything after the windows of an app were looked for because captures
/// failed.
pub open spec fn after_search(s: MacState, pid: u32, windows: Seq<MacWindow>, now: u64) -> MacState {
    let e = s.embedded[pid];
    if windows.len() == 0 {
        if e.pixels is None {
            MacState { embedded: s.embedded.remove(pid), ..s }
        } else {
            s
        }
    } else if windows[0].id != e.window_id {
        MacState {
            embedded: s.embedded.insert(pid, retargeted(e, windows[0].id)),
            streams: maybe_started(
                StreamState { frames: s.streams.frames.remove(e.window_id), ..s.streams },
                windows[0].id,
                now,
            ),
            ..s
        }
    } else {
        s
    }
}

impl AppCaptureManager {
    pub fn new() -> (r: AppCaptureManager)
        ensures
            r@.embedded == Map::<u32, EmbeddedWindow>::empty(),
            r@.search_fails == Map::<u32, u32>::empty(),
            r@.frame == 0,
            r@.visible,
            r@.streams.starting == Set::<u32>::empty(),
            r@.streams.restarted == Set::<u32>::empty(),
            r@.streams.gave_up == Set::<u32>::empty(),
            r@.streams.started_at == Map::<u32, u64>::empty(),
            r@.streams.running == Seq::<(u32, u64)>::empty(),
            r@.streams.delegates == Map::<u64, u32>::empty(),
            r@.streams.frames == Map::<u32, StreamFrame>::empty(),
    {
        AppCaptureManager {
            embedded: HashMap::new(),
            search_fails: HashMap::new(),
            frame: 0,
            visible: true,
            streams: Streams::new(),
        }
    }

    /// The apps whose windows are known, each once, in no set order.
    pub fn known_pids(&self) -> (r: Vec<u32>)
        ensures
            r@.to_set() == self@.embedded.dom(),
            r@.no_duplicates(),
    {
        let ghost keys = self.embedded.keys().remaining().unref();
        let mut out: Vec<u32> = Vec::new();
        for k in it: self.embedded.keys()
            invariant
                it.seq().unref() == keys,
                it.seq().no_duplicates(),
                keys.to_set() == self.embedded@.dom(),
                out@ == keys.take(it.index() as int),
        {
            out.push(*k);
        }
        assert(keys.take(keys.len() as int) == keys);
        out
    }

    /// Shows or hides the companion apps.
    pub fn toggle_visibility(&mut self)
        ensures
            final(self)@ == (MacState { visible: !old(self)@.visible, ..old(self)@ }),
    {
        self.visible = !self.visible;
    }

    /// Does nothing: windows are not tiled here.
    pub fn set_float_hint(&mut self, pid: u32)
        ensures
            final(self)@ == old(self)@,
    {
    }

    /// Forgets an app.
    pub fn drop_window(&mut self, pid: u32)
        ensures
            final(self)@ == (MacState {
                embedded: old(self)@.embedded.remove(pid),
                search_fails: old(self)@.search_fails.remove(pid),
                ..old(self)@
            }),
    {
        self.embedded.remove(&pid);
        self.search_fails.remove(&pid);
    }

    /// Starts a frame for an app.
    pub fn embed(&mut self, pid: u32, now: u64) -> (r: MacStep)
        ensures
            final(self)@ == (MacState { frame: old(self)@.frame.wrapping_add(1), ..old(self)@ }),
            r == if search_paused(fails_of(old(self)@.search_fails, pid), final(self)@.frame) {
                MacStep::Nothing
            } else if !old(self)@.embedded.contains_key(pid) {
                MacStep::FindWindows
            } else {
                known_step(old(self)@.embedded[pid], final(self)@, now)
            },
    {
        self.frame = self.frame.wrapping_add(1);
        let fails: u32 = match self.search_fails.get(&pid) {
            Some(f) => *f,
            None => 0,
        };
        if fails > SEARCH_FAIL_LIMIT && self.frame % SEARCH_RETRY_FRAMES != 0 {
            return MacStep::Nothing;
        }
        match self.embedded.get(&pid) {
            Some(e) => {
                if self.frame.wrapping_sub(e.found_at_frame) < STABILIZATION_FRAMES
                    || !self.visible {
                    return MacStep::Nothing;
                }
                let early = match e.first_capture {
                    Some(t) => now.saturating_sub(t) < DISCOVERY_TIME,
                    None => true,
                };
                if !self.streams.starting.contains(&e.window_id) || (early && self.frame % 30
                    == 0) {
                    MacStep::Rediscover
                } else {
                    MacStep::Poll
                }
            },
            None => MacStep::FindWindows,
        }
    }

    /// Reports the windows of an app that was unknown. The largest is taken; a
    /// search that found none is counted. The result is the window whose stream
    /// is to be set up.
    pub fn found(&mut self, pid: u32, windows: &Vec<MacWindow>, now: u64) -> (r: Option<u32>)
        ensures
            windows@.len() == 0 ==> {
                let f = fails_of(old(self)@.search_fails, pid);
                &&& r is None
                &&& final(self)@ == (MacState {
                    search_fails: old(self)@.search_fails.insert(
                        pid,
                        if f < u32::MAX {
                            (f + 1) as u32
                        } else {
                            f
                        },
                    ),
                    ..old(self)@
                })
            },
            windows@.len() > 0 ==> {
                let id = largest(windows@)->0.id;
                &&& final(self)@ == (MacState {
                    embedded: old(self)@.embedded.insert(
                        pid,
                        new_window(id, old(self)@.frame, now),
                    ),
                    search_fails: old(self)@.search_fails.remove(pid),
                    streams: maybe_started(old(self)@.streams, id, now),
                    ..old(self)@
                })
                &&& r == if old(self)@.streams.starting.contains(id) {
                    None
                } else {
                    Some(id)
                }
            },
    {
        proof {
            law_largest(windows@);
        }
        match largest_window(windows) {
            None => {
                let fails: u32 = match self.search_fails.get(&pid) {
                    Some(f) => *f,
                    None => 0,
                };
                self.search_fails.insert(pid, fails.saturating_add(1));
                None
            },
            Some(w) => {
                self.search_fails.remove(&pid);
                let start = self.streams.maybe_start(w.id, now);
                let e = EmbeddedWindow {
                    window_id: w.id,
                    pixels: None,
                    width: 0,
                    height: 0,
                    last_capture: now.saturating_sub(CAPTURE_INTERVAL),
                    found_at_frame: self.frame,
                    warned_capture: false,
                    hidden: false,
                    working_method: 0,
                    first_capture: None,
                };
                self.embedded.insert(pid, e);
                if start {
                    Some(w.id)
                } else {
                    None
                }
            },
        }
    }

    /// Reports the windows of an app that were looked for again: a larger one
    /// replaces the captured one, and a stream that ended is set up anew if its
    /// window still exists. The result is the window whose stream is to be set
    /// up, and what follows.
    pub fn rediscovered(&mut self, pid: u32, windows: &Vec<MacWindow>, now: u64) -> (r: (
        Option<u32>,
        MacStep,
    ))
        requires
            old(self)@.embedded.contains_key(pid),
        ensures
            final(self)@ == after_rediscovery(old(self)@, pid, windows@, now),
            r.1 == step_after_rediscovery(old(self)@, pid, windows@),
            r.0 == {
                let s = old(self)@.streams;
                let id = old(self)@.embedded[pid].window_id;
                if has_larger(windows@, id) {
                    let to = largest(windows@)->0.id;
                    if s.starting.contains(to) {
                        None
                    } else {
                        Some(to)
                    }
                } else if !s.starting.contains(id) && !s.gave_up.contains(id) && lists_window(
                    windows@,
                    id,
                ) {
                    Some(id)
                } else {
                    None
                }
            },
    {
        let ghost before = self.embedded@;
        let id: u32 = match self.embedded.get(&pid) {
            Some(e) => e.window_id,
            None => {
                return (None, MacStep::Show);
            },
        };
        if let Some(best) = largest_window(windows) {
            if best.id != id {
                if let Some(old_e) = self.embedded.remove(&pid) {
                    let mut e = old_e;
                    e.window_id = best.id;
                    e.pixels = None;
                    e.width = 0;
                    e.height = 0;
                    e.warned_capture = false;
                    e.hidden = false;
                    e.working_method = 0;
                    self.embedded.insert(pid, e);
                    assert(self.embedded@ =~= before.insert(pid, e));
                }
                self.streams.gave_up.remove(&best.id);
                self.streams.frames.remove(&id);
                if self.streams.maybe_start(best.id, now) {
                    return (Some(best.id), MacStep::Show);
                }
                return (None, MacStep::Show);
            }
        }
        if self.streams.starting.contains(&id) {
            return (None, MacStep::Poll);
        }
        if self.streams.gave_up.contains(&id) {
            return (None, MacStep::Poll);
        }
        if has_window(windows, id) {
            if self.streams.maybe_start(id, now) {
                return (Some(id), MacStep::Show);
            }
        }
        (None, MacStep::Show)
    }

    /// How an app's window is to be captured now.
    pub fn poll(&mut self, pid: u32, now: u64) -> (r: PollStep)
        requires
            old(self)@.embedded.contains_key(pid),
        ensures
            final(self)@ == (MacState {
                streams: streams_after_poll(
                    old(self)@.embedded[pid],
                    old(self)@.streams,
                    now,
                ),
                ..old(self)@
            }),
            polled(r, old(self)@.embedded[pid], old(self)@.streams, now),
    {
        let (w, due): (u32, bool) = match self.embedded.get(&pid) {
            Some(e) => {
                let wait: u64 = if e.working_method == METHOD_STREAM {
                    STREAM_INTERVAL
                } else {
                    CAPTURE_INTERVAL
                };
                (e.window_id, now.saturating_sub(e.last_capture) >= wait || e.pixels.is_none())
            },
            None => {
                return PollStep::Show;
            },
        };
        if !due {
            return PollStep::Show;
        }
        if let Some(f) = self.streams.frame(w) {
            return PollStep::UseStream { pixels: f.pixels, width: f.width, height: f.height };
        }
        let gave_up = self.streams.gave_up.contains(&w);
        if !self.streams.starting.contains(&w) || gave_up {
            return PollStep::Try { attempt: Attempt::Hardware, allowed: gave_up };
        }
        if !self.streams.stuck(w, now) {
            return PollStep::Show;
        }
        if !self.streams.restarted.contains(&w) {
            self.streams.starting.remove(&w);
            let _ = self.streams.maybe_start(w, now);
            self.streams.restarted.insert(w);
            PollStep::Restart
        } else {
            self.streams.starting.remove(&w);
            PollStep::Try { attempt: Attempt::List, allowed: true }
        }
    }

    /// Takes a picture of an app's window. The result is the window to move
    /// away: one that a stream or the outside program captures stays, since they
    /// see only what is on the screen.
    pub fn accepted(
        &mut self,
        pid: u32,
        pixels: Vec<u8>,
        width: u32,
        height: u32,
        method: u8,
        now: u64,
    ) -> (r: Option<u32>)
        requires
            old(self)@.embedded.contains_key(pid),
        ensures
            final(self)@ == (MacState {
                embedded: old(self)@.embedded.insert(
                    pid,
                    pictured(old(self)@.embedded[pid], pixels, width, height, method, now),
                ),
                ..old(self)@
            }),
            r == if !old(self)@.embedded[pid].hidden && method <= LAST_HIDING_METHOD {
                Some(old(self)@.embedded[pid].window_id)
            } else {
                None
            },
    {
        let ghost before = self.embedded@;
        match self.embedded.remove(&pid) {
            Some(old_e) => {
                let mut e = old_e;
                if e.pixels.is_none() {
                    e.first_capture = Some(now);
                }
                e.pixels = Some(pixels);
                e.width = width;
                e.height = height;
                e.last_capture = now;
                e.working_method = method;
                let mut away: Option<u32> = None;
                if !e.hidden && method <= LAST_HIDING_METHOD {
                    e.hidden = true;
                    away = Some(e.window_id);
                }
                self.embedded.insert(pid, e);
                assert(self.embedded@ =~= before.insert(pid, e));
                away
            },
            None => None,
        }
    }

    /// Reports that every attempt to capture an app's window failed. The result
    /// tells whether to say so, and whether to look for its windows and report
    /// them.
    pub fn failed(&mut self, pid: u32) -> (r: (bool, bool))
        requires
            old(self)@.embedded.contains_key(pid),
        ensures
            final(self)@ == (MacState {
                embedded: old(self)@.embedded.insert(
                    pid,
                    EmbeddedWindow { warned_capture: true, ..old(self)@.embedded[pid] },
                ),
                ..old(self)@
            }),
            r == (!old(self)@.embedded[pid].warned_capture, old(self)@.frame % 30 == 0),
    {
        let ghost before = self.embedded@;
        match self.embedded.remove(&pid) {
            Some(old_e) => {
                let mut e = old_e;
                let first = !e.warned_capture;
                e.warned_capture = true;
                self.embedded.insert(pid, e);
                assert(self.embedded@ =~= before.insert(pid, e));
                (first, self.frame % 30 == 0)
            },
            None => (false, false),
        }
    }

    /// Reports the windows of an app whose captures failed: the first replaces
    /// the captured one, and an app without windows and without a picture is
    /// forgotten. The result is the window whose stream is to be set up.
    pub fn searched(&mut self, pid: u32, windows: &Vec<MacWindow>, now: u64) -> (r: Option<u32>)
        requires
            old(self)@.embedded.contains_key(pid),
        ensures
            final(self)@ == after_search(old(self)@, pid, windows@, now),
            r == if windows@.len() > 0 && windows@[0].id != old(self)@.embedded[pid].window_id
                && !old(self)@.streams.starting.contains(windows@[0].id) {
                Some(windows@[0].id)
            } else {
                None
            },
    {
        let ghost before = self.embedded@;
        match self.embedded.remove(&pid) {
            Some(old_e) => {
                if windows.len() == 0 {
                    if old_e.pixels.is_some() {
                        self.embedded.insert(pid, old_e);
                        assert(self.embedded@ =~= before);
                    }
                    return None;
                }
                let id: u32 = windows[0].id;
                if id == old_e.window_id {
                    self.embedded.insert(pid, old_e);
                    assert(self.embedded@ =~= before);
                    return None;
                }
                let old_id: u32 = old_e.window_id;
                let mut e = old_e;
                e.window_id = id;
                e.warned_capture = false;
                e.hidden = false;
                e.working_method = 0;
                self.embedded.insert(pid, e);
                assert(self.embedded@ =~= before.insert(pid, e));
                self.streams.frames.remove(&old_id);
                if self.streams.maybe_start(id, now) {
                    Some(id)
                } else {
                    None
                }
            },
            None => None,
        }
    }

    /// The last picture of an app's window, if it is not empty.
    pub fn picture(&self, pid: u32) -> (r: Option<(Vec<u8>, u32, u32)>)
        ensures
            r is Some <==> self@.embedded.contains_key(pid) && self@.embedded[pid].pixels is Some
                && self@.embedded[pid].width != 0 && self@.embedded[pid].height != 0,
            r matches Some((p, w, h)) ==> p@ == self@.embedded[pid].pixels->0@ && w
                == self@.embedded[pid].width && h == self@.embedded[pid].height,
    {
        match self.embedded.get(&pid) {
            Some(e) => match &e.pixels {
                Some(p) => {
                    if e.width == 0 || e.height == 0 {
                        None
                    } else {
                        Some((copy_bytes(p), e.width, e.height))
                    }
                },
                None => None,
            },
            None => None,
        }
    }
}

fn has_window(v: &Vec<MacWindow>, id: u32) -> (r: bool)
    ensures
        r == lists_window(v@, id),
{
    let mut i: usize = 0;
    while i < v.len()
        invariant
            i <= v@.len(),
            forall|k: int| 0 <= k < i ==> (#[trigger] v@[k]).id != id,
        decreases v.len() - i,
    {
        if v[i].id == id {
            return true;
        }
        i += 1;
    }
    false
}

/// A window is left alone for its time, and hidden apps cost nothing.
pub proof fn law_window_rests(e: EmbeddedWindow, s: MacState, now: u64)
    requires
        s.frame.wrapping_sub(e.found_at_frame) < STABILIZATION_FRAMES || !s.visible,
    ensures
        known_step(e, s, now) is Nothing,
{
}

/// A stuck stream is set up anew at most once: when it is stuck again, the
/// window list is read and the stream is no longer waited for.
pub proof fn law_one_restart(e: EmbeddedWindow, s: StreamState, now: u64, later: u64)
    requires
        restarts(e, s, now),
        is_stuck(streams_after_poll(e, s, now), e.window_id, later),
        is_due(e, later),
    ensures
        !restarts(e, streams_after_poll(e, s, now), later),
        streams_after_poll(e, s, now).frames.contains_key(e.window_id) || leaves_stream(
            e,
            streams_after_poll(e, s, now),
            later,
        ),
{
    let t = streams_after_poll(e, s, now);
    assert(t.starting.contains(e.window_id));
    assert(t.restarted.contains(e.window_id));
    assert(!t.gave_up.contains(e.window_id));
}

/// A window that a stream or the outside program captures is never moved away
/// on their account.
pub proof fn law_composited_windows_stay(
    e: EmbeddedWindow,
    pixels: Vec<u8>,
    width: u32,
    height: u32,
    method: u8,
    now: u64,
)
    requires
        method > LAST_HIDING_METHOD,
    ensures
        pictured(e, pixels, width, height, method, now).hidden == e.hidden,
{
}

/// The modifiers of a key are told apart, each by its own bit of the display's
/// mask: shift, control, alt and the command key.
pub proof fn law_modifiers_are_told_apart(mods: i32)
    ensures
        x11_mods(mods) % 2 == 1 <==> mods & 1 != 0,
        x11_mods(mods) / 4 % 2 == 1 <==> mods & 2 != 0,
        x11_mods(mods) / 8 % 2 == 1 <==> mods & 4 != 0,
        x11_mods(mods) / 64 % 2 == 1 <==> mods & 8 != 0,
        0 <= x11_mods(mods) <= 77,
{
}

/// The keycodes run on along the rows of the keyboard: the digits, the three rows of
/// letters and the function keys.
pub proof fn law_keycodes_follow_the_rows(i: int)
    ensures
        0 <= i < 9 ==> jnh_code((49 + i) as i32) == 2 + i,
        jnh_code(48) == jnh_code(57) + 1,
        0 <= i < 10 ==> jnh_code(
            seq![81i32, 87, 69, 82, 84, 89, 85, 73, 79, 80][i],
        ) == 16 + i,
        0 <= i < 9 ==> jnh_code(seq![65i32, 83, 68, 70, 71, 72, 74, 75, 76][i]) == 30 + i,
        0 <= i < 7 ==> jnh_code(seq![90i32, 88, 67, 86, 66, 78, 77][i]) == 44 + i,
        0 <= i < 10 ==> jnh_code((290 + i) as i32) == 59 + i,
        jnh_code(301) == jnh_code(300) + 1 && jnh_code(300) == 87,
        jnh_code(45) == jnh_code(48) + 1 && jnh_code(61) == jnh_code(45) + 1,
        jnh_code(259) == jnh_code(61) + 1 && jnh_code(258) == jnh_code(259) + 1,
        jnh_code(91) == jnh_code(80) + 1 && jnh_code(93) == jnh_code(91) + 1,
        jnh_code(59) == jnh_code(76) + 1 && jnh_code(39) == jnh_code(59) + 1,
        jnh_code(44) == jnh_code(77) + 1 && jnh_code(46) == jnh_code(44) + 1 && jnh_code(47)
            == jnh_code(46) + 1,
        jnh_code(256) == 1,
        jnh_code(257) == jnh_code(93) + 1 && jnh_code(341) == jnh_code(257) + 1 && jnh_code(65)
            == jnh_code(341) + 1,
        jnh_code(96) == jnh_code(39) + 1 && jnh_code(340) == jnh_code(96) + 1 && jnh_code(92)
            == jnh_code(340) + 1 && jnh_code(90) == jnh_code(92) + 1,
        jnh_code(344) == jnh_code(47) + 1 && jnh_code(332) == jnh_code(344) + 1 && jnh_code(342)
            == jnh_code(332) + 1,
        jnh_code(32) == jnh_code(342) + 1 && jnh_code(280) == jnh_code(32) + 1 && jnh_code(290)
            == jnh_code(280) + 1,
        jnh_code(282) == jnh_code(299) + 1,
{
}

/// The keys of the block between the main part and the number pad have the codes of
/// the pad's keys with the same meaning, marked as extended, and the right-hand
/// modifiers, the pad's enter and its slash those of their counterparts.
pub proof fn law_extended_keys_have_counterparts()
    ensures
        jnh_code(265) == 0xe000 + jnh_code(328) && jnh_code(264) == 0xe000 + jnh_code(322),
        jnh_code(263) == 0xe000 + jnh_code(324) && jnh_code(262) == 0xe000 + jnh_code(326),
        jnh_code(266) == 0xe000 + jnh_code(329) && jnh_code(267) == 0xe000 + jnh_code(323),
        jnh_code(268) == 0xe000 + jnh_code(327) && jnh_code(269) == 0xe000 + jnh_code(321),
        jnh_code(260) == 0xe000 + jnh_code(320) && jnh_code(261) == 0xe000 + jnh_code(330),
        jnh_code(345) == 0x0e00 + jnh_code(341) && jnh_code(346) == 0x0e00 + jnh_code(342),
        jnh_code(335) == 0x0e00 + jnh_code(257) && jnh_code(331) == 0x0e00 + jnh_code(47),
        jnh_code(328) == jnh_code(327) + 1 && jnh_code(329) == jnh_code(328) + 1,
        jnh_code(325) == jnh_code(324) + 1 && jnh_code(326) == jnh_code(325) + 1,
        jnh_code(322) == jnh_code(321) + 1 && jnh_code(323) == jnh_code(322) + 1,
        jnh_code(333) == jnh_code(329) + 1 && jnh_code(324) == jnh_code(333) + 1,
        jnh_code(334) == jnh_code(326) + 1 && jnh_code(321) == jnh_code(334) + 1,
        jnh_code(320) == jnh_code(323) + 1 && jnh_code(330) == jnh_code(320) + 1,
        jnh_code(327) == 71,
{
}

/// A window is captured for a process only where it is the process's own, is on an
/// ordinary layer, is large enough, is not the game's and is no empty stand-in; and
/// each such window is.
pub proof fn law_captured_windows(w: WindowInfo, pid: u32)
    ensures
        is_candidate(w, pid) ==> w.number is Some && w.number->0 >= 1 && w.layer is Some
            && w.layer->0 >= 0 && w.layer->0 <= 99,
        is_candidate(w, pid) ==> w.pid is Some && w.pid->0 as u32 == pid,
        is_candidate(w, pid) ==> w.size is Some && w.size->0.over_50 && w.size->0.over_100,
        w.title is Some && contains(w.title->0@, "Minecraft"@) ==> !is_candidate(w, pid),
        w.layer == Some(0i32) && w.size is Some && w.size->0.square && (w.title is None
            || w.title->0@.len() == 0) ==> !is_candidate(w, pid),
        ({
            &&& w.number is Some && w.number->0 > 0
            &&& w.layer is Some && 0 <= w.layer->0 < 100
            &&& w.size is Some && w.size->0.over_50 && w.size->0.over_100
            &&& w.pid is Some && w.pid->0 as u32 == pid
            &&& w.title is Some && w.title->0@.len() > 0 && !contains(w.title->0@, "Minecraft"@)
        }) ==> is_candidate(w, pid),
        ({
            &&& w.number is Some && w.number->0 > 0
            &&& w.layer is Some && 0 <= w.layer->0 < 100
            &&& w.size is Some && w.size->0.over_50 && w.size->0.over_100
            &&& w.pid is Some && w.pid->0 as u32 == pid
            &&& w.title is None && (w.layer->0 > 0 || !w.size->0.square)
        }) ==> is_candidate(w, pid),
{
}

/// The list of a process's windows holds each candidate with its number, its area
/// and its place in the list, and nothing else.
pub proof fn law_candidates(v: Seq<WindowInfo>, pid: u32, n: int, k: int, m: MacWindow)
    requires
        0 <= n <= v.len() <= usize::MAX,
    ensures
        0 <= k < n && is_candidate(v[k], pid) ==> exists|i: int|
            0 <= i < candidates(v, pid, n).len() && ({
                let c = #[trigger] candidates(v, pid, n)[i];
                c.id == v[k].number->0 && c.area == v[k].size->0.area && c.index == k && (c.titled
                    <==> v[k].title is Some && v[k].title->0@.len() > 0)
            }),
        candidates(v, pid, n).contains(m) ==> 0 <= m.index < n && is_candidate(
            v[m.index as int],
            pid,
        ) && m.id == v[m.index as int].number->0,
    decreases n,
{
    if n > 0 {
        let rest = candidates(v, pid, n - 1);
        let all = candidates(v, pid, n);
        law_candidates(v, pid, n - 1, k, m);
        if 0 <= k < n && is_candidate(v[k], pid) {
            if k < n - 1 {
                let i = choose|i: int|
                    0 <= i < rest.len() && ({
                        let c = #[trigger] rest[i];
                        c.id == v[k].number->0 && c.area == v[k].size->0.area && c.index == k && (
                        c.titled <==> v[k].title is Some && v[k].title->0@.len() > 0)
                    });
                assert(all[i] == rest[i]);
            } else {
                assert(all[rest.len() as int] == window_of(v[k], k));
            }
        }
        if all.contains(m) {
            let i = choose|i: int| 0 <= i < all.len() && all[i] == m;
            if i < rest.len() {
                assert(rest[i] == m);
            }
        }
    }
}

proof fn lemma_window_place(s: Seq<MacWindow>, x: MacWindow, i: int)
    requires
        0 <= i <= s.len(),
    ensures
        i <= window_place(s, x, i) <= s.len(),
        forall|j: int| i <= j < window_place(s, x, i) ==> !comes_before(x, #[trigger] s[j]),
        window_place(s, x, i) < s.len() ==> comes_before(x, s[window_place(s, x, i)]),
    decreases s.len() - i,
{
    if i < s.len() && !comes_before(x, s[i]) {
        lemma_window_place(s, x, i + 1);
    }
}

/// Ordering keeps every window; windows with a title come first, and among alike
/// ones those with higher numbers.
pub proof fn law_windows_are_ordered(s: Seq<MacWindow>)
    ensures
        ordered(s).to_multiset() == s.to_multiset(),
        forall|i: int, j: int|
            0 <= i < j < ordered(s).len() ==> {
                let (a, b) = (#[trigger] ordered(s)[i], #[trigger] ordered(s)[j]);
                (b.titled ==> a.titled) && (a.titled == b.titled ==> a.id >= b.id)
            },
    decreases s.len(),
{
    broadcast use vstd::seq_lib::group_to_multiset_ensures;

    if s.len() > 0 {
        let front = ordered(s.drop_last());
        let x = s.last();
        law_windows_are_ordered(s.drop_last());
        lemma_window_place(front, x, 0);
        let p = window_place(front, x, 0);
        let w = ordered(s);
        assert(s =~= s.drop_last().push(x));
        assert(w.to_multiset() =~= front.to_multiset().insert(x));
        assert forall|i: int, j: int| 0 <= i < j < w.len() implies {
            let (a, b) = (#[trigger] w[i], #[trigger] w[j]);
            (b.titled ==> a.titled) && (a.titled == b.titled ==> a.id >= b.id)
        } by {
            let a = if i < p {
                i
            } else {
                i - 1
            };
            let b = if j < p {
                j
            } else {
                j - 1
            };
            if i == p {
                assert(w[j] == front[b]);
                assert(comes_before(x, front[p]));
                if p < b {
                    assert(front[p].id == front[p].id && front[b].id == front[b].id);
                }
            } else if j == p {
                assert(w[i] == front[a]);
                assert(!comes_before(x, front[a]));
            } else {
                assert(w[i] == front[a] && w[j] == front[b]);
            }
        }
    }
}

/// Of windows of one size the last is the largest.
pub proof fn law_last_of_the_largest(s: Seq<MacWindow>, x: MacWindow)
    ensures
        (forall|i: int| 0 <= i < s.len() ==> (#[trigger] s[i]).area <= x.area) ==> largest(s.push(x))
            == Some(x),
        s.len() > 0 && (exists|i: int| 0 <= i < s.len() && (#[trigger] s[i]).area > x.area)
            ==> largest(s.push(x)) == largest(s),
{
    law_largest(s);
    assert(s.push(x).drop_last() =~= s);
    if let Some(m) = largest(s) {
        let k = choose|k: int| 0 <= k < s.len() && s[k] == m;
        assert(s[k].area == m.area);
    }
}

/// As many rows are read as lie whole in the buffer, up to the picture's height.
pub proof fn law_whole_rows(len: int, w: int, h: int, stride: int, n: int)
    requires
        0 <= n <= h,
    ensures
        n <= whole_rows(len, w, h, stride, n) <= h,
        forall|y: int| #![trigger y * stride]
            n <= y < whole_rows(len, w, h, stride, n) ==> y * stride + w * 4 <= len,
        whole_rows(len, w, h, stride, n) < h ==> whole_rows(len, w, h, stride, n) * stride + w * 4
            > len,
    decreases h - n,
{
    if n < h && n * stride + w * 4 <= len {
        law_whole_rows(len, w, h, stride, n + 1);
    }
}

/// Each pixel of a picture is that at its place in its row of the buffer, with red
/// and blue in their places, and opaque where that is asked for.
pub proof fn law_strided_pixels(
    d: &[u8],
    w: usize,
    h: usize,
    stride: usize,
    opaque: bool,
    r: Vec<u8>,
    x: int,
    y: int,
)
    requires
        call_ensures(strided_to_rgba, (d, w, h, stride, opaque), r),
        0 <= x < w,
        0 <= y < whole_rows(d@.len() as int, w as int, h as int, stride as int, 0),
    ensures
        ({
            let at = (y * w + x) * 4;
            let from = y * stride + x * 4;
            &&& r@[at] == d@[from + 2]
            &&& r@[at + 1] == d@[from + 1]
            &&& r@[at + 2] == d@[from]
            &&& opaque ==> r@[at + 3] == 255
            &&& !opaque ==> r@[at + 3] == d@[from + 3]
        }),
{
    let px = strided_pixels(d@, stride as int, opaque);
    let n = whole_rows(d@.len() as int, w as int, h as int, stride as int, 0);
    law_whole_rows(d@.len() as int, w as int, h as int, stride as int, 0);
    assert(four_bytes(px));
    lemma_image_bytes(px, w as nat, n as nat);
    assert(r@[byte_index(w as int, x, y, 0)] == px(x, y)[0]);
    assert(r@[byte_index(w as int, x, y, 1)] == px(x, y)[1]);
    assert(r@[byte_index(w as int, x, y, 2)] == px(x, y)[2]);
    assert(r@[byte_index(w as int, x, y, 3)] == px(x, y)[3]);
}

proof fn lemma_none_differ(p: Seq<u8>, w: int, h: int, k: int)
    requires
        0 <= k <= 16,
        0 < w,
        0 < h,
        forall|i: int| #![trigger p[i * 4]]
            0 <= i < w * h ==> -8 <= p[i * 4] - p[0] <= 8 && -8 <= p[i * 4 + 1] - p[1] <= 8 && -8
                <= p[i * 4 + 2] - p[2] <= 8,
    ensures
        differing(p, w, h, k) == 0,
    decreases k,
{
    if k > 0 {
        lemma_none_differ(p, w, h, k - 1);
        lemma_sample_place(w, h, k - 1);
        let x = (((k - 1) % 4) * 2 + 1) * w / 8;
        let y = (((k - 1) / 4) * 2 + 1) * h / 8;
        let i = y * w + x;
        assert(p[i * 4] == p[i * 4]);
    }
}

proof fn lemma_sample_place(w: int, h: int, k: int)
    requires
        0 <= k < 16,
        0 < w,
        0 < h,
    ensures
        ({
            let x = ((k % 4) * 2 + 1) * w / 8;
            let y = ((k / 4) * 2 + 1) * h / 8;
            &&& 0 <= x < w
            &&& 0 <= y < h
            &&& 0 <= y * w + x < w * h
            &&& w >= 8 ==> y * w + x > 0
        }),
{
    let a = (k % 4) * 2 + 1;
    let b = (k / 4) * 2 + 1;
    let x = a * w / 8;
    let y = b * h / 8;
    assert(w <= a * w <= 7 * w) by (nonlinear_arith)
        requires
            1 <= a <= 7,
            0 < w,
    ;
    assert(h <= b * h <= 7 * h) by (nonlinear_arith)
        requires
            1 <= b <= 7,
            0 < h,
    ;
    assert(0 <= y * w && y * w + x < w * h) by (nonlinear_arith)
        requires
            0 <= y <= h - 1,
            0 <= x < w,
    ;
}

proof fn lemma_all_differ(p: Seq<u8>, w: int, h: int, k: int)
    requires
        0 <= k <= 16,
        8 <= w,
        0 < h,
        forall|i: int| #![trigger p[i * 4]]
            0 < i < w * h ==> p[i * 4] - p[0] > 8 || p[0] - p[i * 4] > 8 || p[i * 4 + 1] - p[1] > 8
                || p[1] - p[i * 4 + 1] > 8 || p[i * 4 + 2] - p[2] > 8 || p[2] - p[i * 4 + 2] > 8,
    ensures
        differing(p, w, h, k) == k,
    decreases k,
{
    if k > 0 {
        lemma_all_differ(p, w, h, k - 1);
        lemma_sample_place(w, h, k - 1);
        let x = (((k - 1) % 4) * 2 + 1) * w / 8;
        let y = (((k - 1) / 4) * 2 + 1) * h / 8;
        let i = y * w + x;
        assert(p[i * 4] == p[i * 4]);
    }
}

/// A picture whose pixels are all like its first shows nothing; one whose other
/// pixels all differ from it does; one that is cut short shows nothing.
pub proof fn law_content_is_seen(p: Seq<u8>, w: int, h: int)
    requires
        0 < w,
        0 < h,
    ensures
        (forall|i: int| #![trigger p[i * 4]]
            0 <= i < w * h ==> -8 <= p[i * 4] - p[0] <= 8 && -8 <= p[i * 4 + 1] - p[1] <= 8 && -8
                <= p[i * 4 + 2] - p[2] <= 8) ==> !shows_content(p, w, h),
        w >= 8 && p.len() >= w * h * 4 && (forall|i: int| #![trigger p[i * 4]]
            0 < i < w * h ==> p[i * 4] - p[0] > 8 || p[0] - p[i * 4] > 8 || p[i * 4 + 1] - p[1] > 8
                || p[1] - p[i * 4 + 1] > 8 || p[i * 4 + 2] - p[2] > 8 || p[2] - p[i * 4 + 2] > 8)
            ==> shows_content(p, w, h),
        p.len() < w * h * 4 ==> !shows_content(p, w, h),
        !shows_content(p, 0, h) && !shows_content(p, w, 0),
{
    if forall|i: int| #![trigger p[i * 4]]
        0 <= i < w * h ==> -8 <= p[i * 4] - p[0] <= 8 && -8 <= p[i * 4 + 1] - p[1] <= 8 && -8 <= p[i
            * 4 + 2] - p[2] <= 8 {
        lemma_none_differ(p, w, h, 16);
    }
    if w >= 8 && (forall|i: int| #![trigger p[i * 4]]
        0 < i < w * h ==> p[i * 4] - p[0] > 8 || p[0] - p[i * 4] > 8 || p[i * 4 + 1] - p[1] > 8
            || p[1] - p[i * 4 + 1] > 8 || p[i * 4 + 2] - p[2] > 8 || p[2] - p[i * 4 + 2] > 8) {
        lemma_all_differ(p, w, h, 16);
    }
}

/// Waiting ends when the time has gone by; what never happened is not waited for,
/// and a clock that went back counts as no time at all.
pub proof fn law_waiting(t: u64, now: u64, wait: u64)
    ensures
        t <= now ==> (too_soon(Some(t), now, wait) <==> now < t + wait),
        now < t ==> (too_soon(Some(t), now, wait) <==> wait > 0),
        !too_soon(None, now, wait),
{
}

/// The first way that gives a picture is the one used.
pub proof fn law_first_method_is_used(ok: Seq<bool>, k: int)
    requires
        ok.len() == 4,
        0 <= k < 4,
    ensures
        ok[k] && (forall|i: int| 0 <= i < k ==> !#[trigger] ok[i]) <==> first_method(ok) == Some(
            k + 1,
        ),
        first_method(ok) is None <==> !ok[0] && !ok[1] && !ok[2] && !ok[3],
{
    if first_method(ok) == Some(k + 1) {
        assert forall|i: int| 0 <= i < k implies !#[trigger] ok[i] by {}
    }
}

/// A stream that is set up is the window's only one, and other windows keep theirs.
pub proof fn law_streams_replace_their_own(
    v: Seq<(u32, u64)>,
    window: u32,
    delegate: u64,
    other: (u32, u64),
)
    ensures
        with_stream(v, window, delegate).contains((window, delegate)),
        other.0 != window ==> (with_stream(v, window, delegate).contains(other) <==> v.contains(
            other,
        )),
        (exists|i: int| 0 <= i < v.len() && (#[trigger] v[i]).0 == window) ==> with_stream(
            v,
            window,
            delegate,
        ).len() == v.len(),
    decreases v.len(),
{
    let w = with_stream(v, window, delegate);
    if v.len() == 0 {
        assert(w[0] == (window, delegate));
    } else if v[0].0 == window {
        assert(w[0] == (window, delegate));
        if v.contains(other) && other.0 != window {
            let i = choose|i: int| 0 <= i < v.len() && v[i] == other;
            assert(w[i] == other);
        }
        if w.contains(other) && other.0 != window {
            let i = choose|i: int| 0 <= i < w.len() && w[i] == other;
            assert(v[i] == other);
        }
    } else {
        let t = v.skip(1);
        let u = with_stream(t, window, delegate);
        law_streams_replace_their_own(t, window, delegate, other);
        let i = choose|i: int| 0 <= i < u.len() && u[i] == (window, delegate);
        assert(w[i + 1] == (window, delegate));
        if other.0 != window {
            if v.contains(other) {
                let j = choose|j: int| 0 <= j < v.len() && v[j] == other;
                if j > 0 {
                    assert(t[j - 1] == other);
                    let n = choose|n: int| 0 <= n < u.len() && u[n] == other;
                    assert(w[n + 1] == other);
                } else {
                    assert(w[0] == other);
                }
            }
            if w.contains(other) {
                let j = choose|j: int| 0 <= j < w.len() && w[j] == other;
                if j > 0 {
                    assert(u[j - 1] == other);
                    let n = choose|n: int| 0 <= n < t.len() && t[n] == other;
                    assert(v[n + 1] == other);
                } else {
                    assert(v[0] == other);
                }
            }
        }
        if exists|j: int| 0 <= j < v.len() && (#[trigger] v[j]).0 == window {
            let j = choose|j: int| 0 <= j < v.len() && (#[trigger] v[j]).0 == window;
            assert(t[j - 1].0 == window);
        }
    }
}

/// A stream that ends is no longer waited for; its window is given up only where no
/// picture ever came. What an unknown delegate says changes nothing.
pub proof fn law_ended_streams(s: StreamState, delegate: u64)
    ensures
        s.delegates.contains_key(delegate) ==> {
            let t = stream_stopped(s, delegate);
            let w = s.delegates[delegate];
            &&& !t.starting.contains(w)
            &&& !s.frames.contains_key(w) ==> t.gave_up.contains(w)
            &&& s.frames.contains_key(w) ==> t.gave_up == s.gave_up
            &&& t.frames == s.frames && t.running == s.running && t.restarted == s.restarted
        },
        !s.delegates.contains_key(delegate) ==> stream_stopped(s, delegate) == s,
{
}

/// A stream is started for a window that has none, at the expense of all others,
/// and its time runs from then on; a window that has one keeps it.
pub proof fn law_started_streams(s: StreamState, window: u32, delegate: u64, now: u64, later: u64)
    requires
        now <= later,
    ensures
        maybe_started(s, window, now).starting.contains(window),
        s.starting.contains(window) ==> maybe_started(s, window, now) == s,
        !s.starting.contains(window) ==> maybe_started(s, window, now).running.len() == 0,
        !s.starting.contains(window) ==> (is_stuck(maybe_started(s, window, now), window, later)
            <==> later - now > 3_000_000_000),
        s.starting.contains(window) ==> setup_done(s, window, delegate).running.contains(
            (window, delegate),
        ) && setup_done(s, window, delegate).delegates == s.delegates,
        !s.starting.contains(window) ==> setup_done(s, window, delegate).running == s.running
            && !setup_done(s, window, delegate).delegates.contains_key(delegate),
{
    law_streams_replace_their_own(s.running, window, delegate, (window, delegate));
}

/// A window is found among those that can be streamed at its first place.
pub proof fn law_streamed_window_is_found(ids: Seq<Option<u32>>, window: u32, i: int, n: int)
    requires
        0 <= i,
    ensures
        i <= n < ids.len() && ids[n] == Some(window) && (forall|k: int|
            i <= k < n ==> #[trigger] ids[k] != Some(window)) ==> window_index(ids, window, i)
            == Some(n),
        (forall|k: int| i <= k < ids.len() ==> #[trigger] ids[k] != Some(window)) ==> window_index(
            ids,
            window,
            i,
        ) is None,
    decreases ids.len() - i,
{
    if i < ids.len() {
        law_streamed_window_is_found(ids, window, i + 1, n);
    }
}

/// The ways to capture are tried in their order, the outside program last and only
/// where it may be.
pub proof fn law_attempts_in_order(allowed: bool)
    ensures
        attempt_after(Attempt::Hardware, allowed) == Some(Attempt::List),
        attempt_after(Attempt::List, true) == Some(Attempt::Program),
        attempt_after(Attempt::List, false) is None,
        attempt_after(Attempt::Program, allowed) is None,
{
}

/// A shown window that had its sixty frames of rest is asked for a picture where its
/// stream is there; without one it is looked for again, as it is in each thirtieth
/// frame of its first ten seconds.
pub proof fn law_steps_of_a_window(e: EmbeddedWindow, s: MacState, now: u64, first: u64)
    requires
        s.visible,
        e.found_at_frame <= s.frame,
        first <= now,
    ensures
        s.frame - e.found_at_frame < 60 ==> known_step(e, s, now) is Nothing,
        s.frame - e.found_at_frame >= 60 && !s.streams.starting.contains(e.window_id)
            ==> known_step(e, s, now) is Rediscover,
        s.frame - e.found_at_frame >= 60 && s.streams.starting.contains(e.window_id) ==> {
            &&& s.frame as int % 30 != 0 ==> known_step(e, s, now) is Poll
            &&& s.frame as int % 30 == 0 && e.first_capture is None ==> known_step(
                e,
                s,
                now,
            ) is Rediscover
            &&& s.frame as int % 30 == 0 && e.first_capture == Some(first) ==> (known_step(
                e,
                s,
                now,
            ) is Rediscover <==> now - first < 10_000_000_000)
            &&& known_step(e, s, now) is Poll || known_step(e, s, now) is Rediscover
        },
{
}

/// A picture that came is the window's, with its size, its way and its time; the
/// first also starts the clock of the first seconds. A window is moved away by the
/// first four ways alone, and one that was stays so.
pub proof fn law_pictures_are_kept(
    e: EmbeddedWindow,
    pixels: Vec<u8>,
    width: u32,
    height: u32,
    method: u8,
    now: u64,
)
    ensures
        ({
            let t = pictured(e, pixels, width, height, method, now);
            &&& t.pixels == Some(pixels) && t.width == width && t.height == height
            &&& t.last_capture == now && t.working_method == method
            &&& t.window_id == e.window_id && t.found_at_frame == e.found_at_frame
            &&& e.pixels is None ==> t.first_capture == Some(now)
            &&& e.pixels is Some ==> t.first_capture == e.first_capture
            &&& t.hidden <==> e.hidden || method < 5
        }),
{
}

/// A window that takes the place of another starts without a picture where it was
/// chosen for its size, and keeps the old one where the other vanished.
pub proof fn law_windows_take_over(e: EmbeddedWindow, id: u32, frame: u64, now: u64)
    ensures
        switched(e, id).window_id == id && retargeted(e, id).window_id == id,
        switched(e, id).pixels is None && switched(e, id).width == 0 && switched(e, id).height == 0,
        retargeted(e, id).pixels == e.pixels && retargeted(e, id).width == e.width && retargeted(
            e,
            id,
        ).height == e.height,
        !switched(e, id).hidden && !retargeted(e, id).hidden,
        !switched(e, id).warned_capture && !retargeted(e, id).warned_capture,
        switched(e, id).working_method == 0 && retargeted(e, id).working_method == 0,
        switched(e, id).found_at_frame == e.found_at_frame && switched(e, id).first_capture
            == e.first_capture,
        new_window(id, frame, now).window_id == id && new_window(id, frame, now).found_at_frame
            == frame,
        new_window(id, frame, now).pixels is None && new_window(id, frame, now).first_capture is None,
        is_due(new_window(id, frame, now), now),
{
}

/// A picture is due where there is none yet; else 33 milliseconds after the last of
/// a stream and a tenth of a second after any other.
pub proof fn law_pictures_fall_due(e: EmbeddedWindow, now: u64)
    requires
        e.last_capture <= now,
    ensures
        e.pixels is None ==> is_due(e, now),
        e.pixels is Some && e.working_method == 20 ==> (is_due(e, now) <==> now - e.last_capture
            >= 33_000_000),
        e.pixels is Some && e.working_method != 20 ==> (is_due(e, now) <==> now - e.last_capture
            >= 100_000_000),
{
}

/// A due window takes its stream's picture where there is one. Where its stream was
/// given up or is not there, the other ways are tried, the outside program only
/// after giving up. A stream that is young is waited for, a stuck one set up anew,
/// and one that is stuck again is left.
pub proof fn law_ways_to_a_picture(r: PollStep, e: EmbeddedWindow, s: StreamState, now: u64)
    requires
        polled(r, e, s, now),
        e.pixels is None,
    ensures
        s.frames.contains_key(e.window_id) ==> r is UseStream && r->pixels@
            == s.frames[e.window_id].pixels@ && r->UseStream_width == s.frames[e.window_id].width
            && r->UseStream_height == s.frames[e.window_id].height,
        !s.frames.contains_key(e.window_id) ==> {
            let w = e.window_id;
            &&& s.gave_up.contains(w) ==> r == (PollStep::Try {
                attempt: Attempt::Hardware,
                allowed: true,
            })
            &&& !s.gave_up.contains(w) && !s.starting.contains(w) ==> r == (PollStep::Try {
                attempt: Attempt::Hardware,
                allowed: false,
            })
            &&& !s.gave_up.contains(w) && s.starting.contains(w) && s.started_at.contains_key(w)
                && s.started_at[w] <= now ==> {
                let age = now - s.started_at[w];
                &&& age <= 3_000_000_000 ==> r is Show
                &&& age > 3_000_000_000 && !s.restarted.contains(w) ==> r is Restart
                &&& age > 3_000_000_000 && s.restarted.contains(w) ==> r == (PollStep::Try {
                    attempt: Attempt::List,
                    allowed: true,
                })
            }
        },
{
}

/// A poll leaves the streams as they are, unless the window's own is stuck: then it
/// is set up anew or, the second time, no longer waited for.
pub proof fn law_polls_touch_stuck_streams(e: EmbeddedWindow, s: StreamState, now: u64)
    ensures
        s.frames.contains_key(e.window_id) || s.gave_up.contains(e.window_id)
            || !s.starting.contains(e.window_id) || !is_stuck(s, e.window_id, now)
            ==> streams_after_poll(e, s, now) == s,
        e.pixels is None && !s.frames.contains_key(e.window_id) && !s.gave_up.contains(e.window_id)
            && s.starting.contains(e.window_id) && is_stuck(s, e.window_id, now) ==> {
            let t = streams_after_poll(e, s, now);
            &&& !s.restarted.contains(e.window_id) ==> t.starting.contains(e.window_id)
                && t.restarted.contains(e.window_id) && t.started_at[e.window_id] == now
            &&& s.restarted.contains(e.window_id) ==> !t.starting.contains(e.window_id)
                && t.frames == s.frames && t.running == s.running
        },
{
}

/// A search that finds a larger window goes over to it, and shows the old picture
/// meanwhile; else a window that is still there and has no stream gets one, unless
/// it was given up.
pub proof fn law_rediscovery(s: MacState, pid: u32, windows: Seq<MacWindow>, now: u64, big: MacWindow)
    requires
        s.embedded.contains_key(pid),
        largest(windows) == Some(big),
    ensures
        ({
            let e = s.embedded[pid];
            let t = after_rediscovery(s, pid, windows, now);
            &&& big.id != e.window_id ==> {
                &&& t.embedded[pid].window_id == big.id
                &&& t.embedded[pid].pixels is None
                &&& t.streams.starting.contains(big.id)
                &&& !t.streams.frames.contains_key(e.window_id)
                &&& step_after_rediscovery(s, pid, windows) is Show
            }
            &&& big.id == e.window_id ==> {
                &&& t.embedded == s.embedded
                &&& s.streams.starting.contains(e.window_id) || s.streams.gave_up.contains(
                    e.window_id,
                ) ==> t == s && step_after_rediscovery(s, pid, windows) is Poll
                &&& !s.streams.starting.contains(e.window_id) && !s.streams.gave_up.contains(
                    e.window_id,
                ) ==> t.streams.starting.contains(e.window_id) && step_after_rediscovery(
                    s,
                    pid,
                    windows,
                ) is Show
            }
            &&& t.frame == s.frame && t.visible == s.visible && t.search_fails == s.search_fails
        }),
{
    law_largest(windows);
    let i = choose|i: int| 0 <= i < windows.len() && windows[i] == big;
    assert(windows[i].id == big.id);
    if big.id != s.embedded[pid].window_id {
        let g = given_way(s.streams, s.embedded[pid].window_id, big.id);
        lemma_frames_go(g.frames, g.running, s.embedded[pid].window_id);
    }
}

proof fn lemma_frames_go(m: Map<u32, StreamFrame>, v: Seq<(u32, u64)>, w: u32)
    requires
        !m.contains_key(w),
    ensures
        !without_frames(m, v).contains_key(w),
    decreases v.len(),
{
    if v.len() > 0 {
        lemma_frames_go(m, v.drop_last(), w);
    }
}

/// After a failed capture: a process without windows is forgotten where it never had
/// a picture, and else keeps its last; where its first window is another one, that
/// one is captured from now on.
pub proof fn law_search_after_failure(s: MacState, pid: u32, windows: Seq<MacWindow>, now: u64)
    requires
        s.embedded.contains_key(pid),
    ensures
        ({
            let e = s.embedded[pid];
            let t = after_search(s, pid, windows, now);
            &&& windows.len() == 0 && e.pixels is None ==> !t.embedded.contains_key(pid)
            &&& windows.len() == 0 && e.pixels is Some ==> t == s
            &&& windows.len() > 0 && windows[0].id == e.window_id ==> t == s
            &&& windows.len() > 0 && windows[0].id != e.window_id ==> {
                &&& t.embedded[pid].window_id == windows[0].id
                &&& t.embedded[pid].pixels == e.pixels
                &&& t.streams.starting.contains(windows[0].id)
                &&& !t.streams.frames.contains_key(e.window_id)
            }
            &&& t.frame == s.frame && t.visible == s.visible && t.search_fails == s.search_fails
        }),
{
    if windows.len() > 0 && windows[0].id != s.embedded[pid].window_id {
        let f = s.streams.frames.remove(s.embedded[pid].window_id);
        lemma_frames_go(f, s.streams.running, s.embedded[pid].window_id);
    }
}

/// A key is told by its number, its modifiers and its keycode, in this order and
/// one line each.
pub proof fn law_key_lines(code: u8, mods: u16, key: i32)
    ensures
        ({
            let t = key_line_text((code, mods, key));
            let a = decimal_nat(code as nat);
            let b = decimal_nat(mods as nat);
            let (m, n) = (a.len() as int, b.len() as int);
            &&& t.take(4) == "KEY "@
            &&& t.subrange(4, 4 + m) == a
            &&& t[4 + m] == ' '
            &&& t.subrange(5 + m, 5 + m + n) == b
            &&& t[5 + m + n] == ' '
            &&& t.subrange(6 + m + n, t.len() - 1) == decimal(key as int)
            &&& t.last() == '\n'
        }),
{
    reveal_strlit("KEY ");
    reveal_strlit(" ");
    reveal_strlit("\n");
    let t = key_line_text((code, mods, key));
    let a = decimal_nat(code as nat);
    let b = decimal_nat(mods as nat);
    let (m, n) = (a.len() as int, b.len() as int);
    assert(t.take(4) =~= "KEY "@);
    assert(t.subrange(4, 4 + m) =~= a);
    assert(t.subrange(5 + m, 5 + m + n) =~= b);
    assert(t.subrange(6 + m + n, t.len() - 1) =~= decimal(key as int));
}

/// Where the middle of cell `k` stands in a picture: the cells are a quarter of it
/// wide and high, counted along the rows.
pub open spec fn cell_middle(w: int, h: int, k: int) -> int {
    let x = (2 * (k % 4) + 1) * w / 8;
    let y = (2 * (k / 4) + 1) * h / 8;
    (y * w + x) * 4
}

proof fn lemma_differing_counts(p: Seq<u8>, w: int, h: int, k: int, a: int, b: int)
    requires
        0 <= a < b < 16,
        0 <= k <= 16,
    ensures
        sample_differs(p, w, h, a) && sample_differs(p, w, h, b) ==> differing(p, w, h, k) >= (if k
            > b {
            2int
        } else if k > a {
            1
        } else {
            0
        }),
        (forall|i: int| 0 <= i < 16 && i != a ==> !#[trigger] sample_differs(p, w, h, i))
            ==> differing(p, w, h, k) <= (if k > a {
            1int
        } else {
            0
        }),
    decreases k,
{
    if k > 0 {
        lemma_differing_counts(p, w, h, k - 1, a, b);
    }
}

/// A picture is looked at in the middles of sixteen cells, four by four. It shows
/// something where two of them differ from its first pixel by more than eight in
/// some color, and not where only one does.
pub proof fn law_two_cells_make_content(p: Seq<u8>, w: int, h: int, a: int, b: int, c: int, d: int)
    requires
        0 < w,
        0 < h,
        p.len() >= w * h * 4,
        0 <= a < b < 16,
        0 <= c < 3,
        0 <= d < 3,
    ensures
        ({
            let i = cell_middle(w, h, a);
            let j = cell_middle(w, h, b);
            (p[i + c] > p[c] + 8 || p[i + c] < p[c] - 8) && (p[j + d] > p[d] + 8 || p[j + d] < p[d]
                - 8)
        }) ==> shows_content(p, w, h),
        (forall|k: int|
            0 <= k < 16 && k != a ==> {
                let at = #[trigger] cell_middle(w, h, k);
                -8 <= p[at] - p[0] <= 8 && -8 <= p[at + 1] - p[1] <= 8 && -8 <= p[at + 2] - p[2] <= 8
            })
            ==> !shows_content(p, w, h),
{
    lemma_differing_counts(p, w, h, 16, a, b);
    let i = cell_middle(w, h, a);
    let j = cell_middle(w, h, b);
    if (p[i + c] > p[c] + 8 || p[i + c] < p[c] - 8) && (p[j + d] > p[d] + 8 || p[j + d] < p[d] - 8) {
        assert(c == 0 || c == 1 || c == 2);
        assert(d == 0 || d == 1 || d == 2);
        assert(sample_differs(p, w, h, a) && sample_differs(p, w, h, b));
    }
    if forall|k: int|
        0 <= k < 16 && k != a ==> {
            let at = #[trigger] cell_middle(w, h, k);
            -8 <= p[at] - p[0] <= 8 && -8 <= p[at + 1] - p[1] <= 8 && -8 <= p[at + 2] - p[2] <= 8
        } {
        assert forall|k: int| 0 <= k < 16 && k != a implies !#[trigger] sample_differs(
            p,
            w,
            h,
            k,
        ) by {
            let at = cell_middle(w, h, k);
            assert(-8 <= p[at] - p[0] <= 8);
        }
    }
}

} // verus!
