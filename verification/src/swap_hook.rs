//! What happens on each frame of the game: the frame limit, what is drawn over
//! it and where, the commands of scripts, and the function that really swaps.

use crate::text::{find_last, from_range, same_text, to_chars, white_space};
use vstd::prelude::*;
use vstd::string::*;

verus! {

use crate::text::{is_white_space, last_position, trim_front};

/// The frame rate that is kept while the settings are open.
pub const OVERLAY_MIN_FPS: i32 = 30;

// ---------------------------------------------------------------------------
// Frame limit
// ---------------------------------------------------------------------------

/// The frame rate in force: while the settings are open a low limit is raised.
pub open spec fn limit_in_force(configured: i32, gui_visible: bool) -> i32 {
    if gui_visible && 0 < configured < OVERLAY_MIN_FPS {
        OVERLAY_MIN_FPS
    } else {
        configured
    }
}

pub fn effective_fps(configured: i32, gui_visible: bool) -> (r: i32)
    ensures
        r == limit_in_force(configured, gui_visible),
{
    if configured > 0 && configured < OVERLAY_MIN_FPS && gui_visible {
        OVERLAY_MIN_FPS
    } else {
        configured
    }
}

/// The time at which the next frame is due, in nanoseconds; 0 before the first.
pub struct FrameLimiter {
    pub next: u64,
}

/// How to wait for a frame: sleep until `sleep_until`, then spin until `target`.
#[derive(Clone, Copy, Debug, PartialEq, Eq, Structural)]
pub struct FrameWait {
    pub target: u64,
    pub frame: u64,
    pub sleep_until: Option<u64>,
    pub spin: bool,
}

/// Nanoseconds of a frame.
pub open spec fn frame_time(fps: i32) -> int {
    1_000_000_000int / (fps as int)
}

/// Nanoseconds before the target at which the sleep ends.
pub open spec fn spin_time(spin_us: i32) -> int {
    if spin_us > 0 {
        spin_us * 1000
    } else {
        0
    }
}

/// How to wait at `now` for a frame that is due at `target`.
pub open spec fn wait_for(target: u64, fps: i32, spin_us: i32, now: u64) -> FrameWait {
    FrameWait {
        target,
        frame: frame_time(fps) as u64,
        sleep_until: if target > now && target - now > spin_time(spin_us) {
            Some((target - spin_time(spin_us)) as u64)
        } else {
            None
        },
        spin: target > now,
    }
}

/// When the frame after one that was due at `target` and came at `now` is due:
/// one frame later, or one frame from now where more than a frame was lost.
pub open spec fn next_due(target: u64, frame: u64, now: u64) -> int {
    if now > target + frame {
        now + frame
    } else {
        target + frame
    }
}

impl FrameLimiter {
    pub fn new() -> (r: FrameLimiter)
        ensures
            r.next == 0,
    {
        FrameLimiter { next: 0 }
    }

    /// Starts a frame at `now`. Without a limit, and in the first frame, there
    /// is nothing to wait for.
    pub fn begin(&mut self, fps: i32, spin_us: i32, now: u64) -> (r: Option<FrameWait>)
        requires
            fps > 0 && old(self).next == 0 ==> now + frame_time(fps) <= u64::MAX,
        ensures
            fps <= 0 ==> r is None && final(self).next == 0,
            fps > 0 && old(self).next == 0 ==> r is None && final(self).next == now + frame_time(
                fps,
            ),
            fps > 0 && old(self).next != 0 ==> final(self).next == old(self).next && r == Some(
                wait_for(old(self).next, fps, spin_us, now),
            ),
    {
        if fps <= 0 {
            self.next = 0;
            return None;
        }
        let frame: u64 = 1_000_000_000u64 / (fps as u64);
        assert(frame == frame_time(fps));
        let spin: u64 = if spin_us > 0 {
            spin_us as u64 * 1000
        } else {
            0
        };
        if self.next == 0 {
            self.next = now + frame;
            return None;
        }
        let target: u64 = self.next;
        let sleep_until: Option<u64> = if target > now && target - now > spin {
            Some(target - spin)
        } else {
            None
        };
        Some(FrameWait { target, frame, sleep_until, spin: target > now })
    }

    /// Ends the wait for a frame at `now`.
    pub fn finish(&mut self, wait: FrameWait, now: u64)
        requires
            now + wait.frame <= u64::MAX,
            wait.target + wait.frame <= u64::MAX,
        ensures
            final(self).next == next_due(wait.target, wait.frame, now),
    {
        if now > wait.target + wait.frame {
            self.next = now + wait.frame;
        } else {
            self.next = wait.target + wait.frame;
        }
    }
}

/// The next frame is never due in the past, and as long as no more than a frame
/// is lost the frames are due one frame apart.
pub proof fn law_frames_are_spaced(target: u64, frame: u64, now: u64)
    ensures
        next_due(target, frame, now) >= now,
        now <= target + frame ==> next_due(target, frame, now) - target == frame,
        now > target + frame ==> next_due(target, frame, now) - now == frame,
{
}

/// A limit of so many frames a second leaves each of them its share of the
/// second, to a nanosecond; a frame that is not due yet is waited for, by sleeping
/// until the time for spinning begins.
pub proof fn law_frames_share_the_second(fps: i32, target: u64, spin_us: i32, now: u64)
    requires
        fps > 0,
    ensures
        ({
            let w = wait_for(target, fps, spin_us, now);
            &&& w.frame * fps <= 1_000_000_000 < (w.frame + 1) * fps
            &&& w.target == target
            &&& w.spin == (now < target)
            &&& spin_us >= 0 && now + spin_us * 1000 < target ==> w.sleep_until is Some
                && w.sleep_until->0 + spin_us * 1000 == target
            &&& now >= target ==> w.sleep_until is None
        }),
{
    let f = frame_time(fps);
    assert(f * fps <= 1_000_000_000 < (f + 1) * fps && 0 <= f <= 1_000_000_000)
        by (nonlinear_arith)
        requires
            fps > 0,
            f == 1_000_000_000int / (fps as int),
    ;
}

/// A low limit is raised while the settings are open, and only then; no limit
/// stays no limit.
pub proof fn law_settings_stay_usable(configured: i32)
    ensures
        limit_in_force(configured, false) == configured,
        configured >= 30 || configured <= 0 ==> limit_in_force(configured, true) == configured,
        0 < configured <= 30 ==> limit_in_force(configured, true) == 30,
{
}

/// The sleep never goes past the target, and the rest is spun.
pub proof fn law_sleep_ends_in_time(target: u64, fps: i32, spin_us: i32, now: u64)
    requires
        fps > 0,
    ensures
        wait_for(target, fps, spin_us, now).sleep_until matches Some(t) ==> now < t <= target,
        wait_for(target, fps, spin_us, now).sleep_until is Some ==> wait_for(
            target,
            fps,
            spin_us,
            now,
        ).spin,
{
}

// ---------------------------------------------------------------------------
// First frame
// ---------------------------------------------------------------------------

/// How far the work of the first frame is.
pub struct InitState {
    pub begun: bool,
    pub initialized: bool,
    pub failed: bool,
}

impl InitState {
    pub fn new() -> (r: InitState)
        ensures
            !r.begun,
            !r.initialized,
            !r.failed,
    {
        InitState { begun: false, initialized: false, failed: false }
    }

    /// Whether the work of the first frame is to be done now; it is begun once.
    pub fn first_frame_init(&mut self) -> (r: bool)
        ensures
            r == !old(self).begun,
            final(self).begun,
            final(self).initialized == old(self).initialized,
            final(self).failed == old(self).failed,
    {
        let first = !self.begun;
        self.begun = true;
        first
    }

    /// Reports whether the drawing functions can be found. Without them nothing
    /// more is done.
    pub fn resolved(&mut self, found: bool) -> (r: bool)
        ensures
            r == found,
            final(self).failed == (old(self).failed || !found),
            final(self).initialized == old(self).initialized,
            final(self).begun == old(self).begun,
    {
        if !found {
            self.failed = true;
        }
        found
    }

    /// Reports whether the overlay could be made. The result tells whether to
    /// greet a new user.
    pub fn overlay_made(&mut self, ok: bool, onboarded: bool) -> (r: bool)
        ensures
            final(self).initialized == (old(self).initialized || ok),
            final(self).failed == (old(self).failed || !ok),
            final(self).begun == old(self).begun,
            r == (ok && !onboarded),
    {
        if ok {
            self.initialized = true;
            !onboarded
        } else {
            self.failed = true;
            false
        }
    }
}

// ---------------------------------------------------------------------------
// Script commands
// ---------------------------------------------------------------------------

/// A command of a script. `S` is a mouse sensitivity.
pub enum LuaCommand<S> {
    SwitchMode(String),
    ToggleMode { main: String, fallback: String },
    ToggleGui,
    SetSensitivity(S),
    Exec(String),
    ToggleAppVisibility,
    PressKey(i32),
    Log(String),
}

/// A step that carries out a command.
pub enum HostStep<S> {
    /// Switch the overlay to a mode.
    SwitchMode(String),
    /// Tell the scripts the name of the mode.
    UpdateModeName(String),
    SetSensitivity(S, Option<(S, S)>),
    ClearSensitivity,
    ToggleGui,
    /// Start a program under a name.
    Spawn { command: String, name: String },
    ToggleAppVisibility,
    PressKey(i32),
    Log(String),
}

/// The sensitivity that a mode asks for.
pub struct ModeSensitivity<S> {
    pub id: String,
    pub override_enabled: bool,
    pub separate: bool,
    pub sensitivity: S,
    pub x: S,
    pub y: S,
}

/// The first mode of a name.
pub open spec fn mode_index<S>(modes: Seq<ModeSensitivity<S>>, id: Seq<char>, i: int) -> Option<int>
    decreases modes.len() - i,
{
    if 0 <= i < modes.len() {
        if modes[i].id@ == id {
            Some(i)
        } else {
            mode_index(modes, id, i + 1)
        }
    } else {
        None
    }
}

/// The step that a mode asks for.
pub open spec fn mode_step<S>(m: ModeSensitivity<S>) -> HostStep<S> {
    if m.override_enabled {
        HostStep::SetSensitivity(
            m.sensitivity,
            if m.separate {
                Some((m.x, m.y))
            } else {
                None
            },
        )
    } else {
        HostStep::ClearSensitivity
    }
}

/// The step that sets the sensitivity of a mode: none for an unknown mode, and a
/// mode without one of its own clears it.
pub fn apply_mode_sensitivity<S: Copy>(id: &str, modes: &Vec<ModeSensitivity<S>>) -> (r: Option<
    HostStep<S>,
>)
    ensures
        r == match mode_index(modes@, id@, 0) {
            Some(i) => Some(mode_step(modes@[i])),
            None => None,
        },
{
    let mut i: usize = 0;
    while i < modes.len()
        invariant
            i <= modes@.len(),
            mode_index(modes@, id@, 0) == mode_index(modes@, id@, i as int),
        decreases modes.len() - i,
    {
        let m = &modes[i];
        if same_text(m.id.as_str(), id) {
            if m.override_enabled {
                let sep: Option<(S, S)> = if m.separate {
                    Some((m.x, m.y))
                } else {
                    None
                };
                return Some(HostStep::SetSensitivity(m.sensitivity, sep));
            }
            return Some(HostStep::ClearSensitivity);
        }
        i += 1;
    }
    None
}

/// The first word of a text.
pub open spec fn first_word(s: Seq<char>) -> Seq<char> {
    leading_word(trim_front(s))
}

/// A text up to its first white space.
pub open spec fn leading_word(s: Seq<char>) -> Seq<char>
    decreases s.len(),
{
    if s.len() == 0 || is_white_space(s[0]) {
        Seq::empty()
    } else {
        seq![s[0]] + leading_word(s.skip(1))
    }
}

/// The name of a program that a command starts: the last part of the path that
/// is its first word.
pub open spec fn program_name(command: Seq<char>) -> Seq<char> {
    let word = first_word(command);
    if word.len() == 0 {
        "exec"@
    } else {
        match last_position(word, '/') {
            Some(i) => word.skip(i + 1),
            None => word,
        }
    }
}

proof fn lemma_leading_word(s: Seq<char>, n: int)
    requires
        0 <= n <= s.len(),
        forall|k: int| 0 <= k < n ==> !is_white_space(#[trigger] s[k]),
        n < s.len() ==> is_white_space(s[n]),
    ensures
        leading_word(s) == s.take(n),
    decreases s.len(),
{
    if n == 0 {
        assert(s.take(0) =~= Seq::<char>::empty());
    } else {
        let rest = s.skip(1);
        assert forall|k: int| 0 <= k < n - 1 implies !is_white_space(#[trigger] rest[k]) by {
            assert(rest[k] == s[k + 1]);
        }
        lemma_leading_word(rest, n - 1);
        assert(s.take(n) =~= seq![s[0]] + rest.take(n - 1));
    }
}

proof fn lemma_trim_front(s: Seq<char>, n: int)
    requires
        0 <= n <= s.len(),
        forall|k: int| 0 <= k < n ==> is_white_space(#[trigger] s[k]),
        n < s.len() ==> !is_white_space(s[n]),
    ensures
        trim_front(s) == s.skip(n),
    decreases s.len(),
{
    if n == 0 {
        assert(s.skip(0) =~= s);
    } else {
        let rest = s.skip(1);
        assert forall|k: int| 0 <= k < n - 1 implies is_white_space(#[trigger] rest[k]) by {
            assert(rest[k] == s[k + 1]);
        }
        lemma_trim_front(rest, n - 1);
        assert(rest.skip(n - 1) =~= s.skip(n));
    }
}

/// The name under which a started program is listed.
pub fn exec_name(command: &str) -> (r: String)
    ensures
        r@ == program_name(command@),
{
    let v = to_chars(command);
    let n: usize = v.len();
    let mut from: usize = 0;
    while from < n && white_space(v[from])
        invariant
            from <= n,
            n == v@.len(),
            forall|k: int| 0 <= k < from ==> is_white_space(#[trigger] v@[k]),
        decreases n - from,
    {
        from += 1;
    }
    let mut to: usize = from;
    while to < n && !white_space(v[to])
        invariant
            from <= to <= n,
            n == v@.len(),
            forall|k: int| from <= k < to ==> !is_white_space(#[trigger] v@[k]),
        decreases n - to,
    {
        to += 1;
    }
    proof {
        lemma_trim_front(v@, from as int);
        let rest = v@.skip(from as int);
        assert forall|k: int| 0 <= k < to - from implies !is_white_space(#[trigger] rest[k]) by {
            assert(rest[k] == v@[k + from]);
        }
        lemma_leading_word(rest, to - from);
        assert(first_word(command@) =~= v@.subrange(from as int, to as int));
    }
    if from == to {
        return "exec".to_owned();
    }
    match find_last(&v, from, to, '/') {
        Some(i) => {
            let ghost word = v@.subrange(from as int, to as int);
            assert(word.skip(i + 1) =~= v@.subrange(from + i + 1, to as int));
            from_range(&v, from + i + 1, to)
        },
        None => from_range(&v, from, to),
    }
}

/// The steps of a switch to a mode.
pub open spec fn switch_steps<S>(
    r: Seq<HostStep<S>>,
    mode: Seq<char>,
    overlay: bool,
    modes: Seq<ModeSensitivity<S>>,
) -> bool {
    let first = if overlay {
        1int
    } else {
        0int
    };
    let sensitivity = mode_index(modes, mode, 0);
    &&& r.len() == first + 1 + if sensitivity is Some {
        1int
    } else {
        0int
    }
    &&& overlay ==> (r[0] matches HostStep::SwitchMode(m) && m@ == mode)
    &&& r[first] matches HostStep::UpdateModeName(m) && m@ == mode
    &&& sensitivity matches Some(i) ==> r[first + 1] == mode_step(modes[i])
}

/// The mode that a toggle leads to.
pub open spec fn toggle_target(current: Seq<char>, main: Seq<char>, fallback: Seq<char>) -> Seq<
    char,
> {
    if current == main {
        fallback
    } else {
        main
    }
}

/// The steps that carry out a command. `current` is the mode in force, where
/// there is an overlay.
pub open spec fn carries_out<S>(
    r: Seq<HostStep<S>>,
    c: LuaCommand<S>,
    current: Option<Seq<char>>,
    modes: Seq<ModeSensitivity<S>>,
) -> bool {
    match c {
        LuaCommand::SwitchMode(name) => switch_steps(r, name@, current is Some, modes),
        LuaCommand::ToggleMode { main, fallback } => match current {
            None => r.len() == 0,
            Some(m) => {
                let target = toggle_target(m, main@, fallback@);
                if target.len() == 0 {
                    r.len() == 1 && (r[0] matches HostStep::SwitchMode(t) && t@ == target)
                } else {
                    switch_steps(r, target, true, modes)
                }
            },
        },
        LuaCommand::ToggleGui => if current is Some {
            r == seq![HostStep::<S>::ToggleGui]
        } else {
            r.len() == 0
        },
        LuaCommand::SetSensitivity(s) => r == seq![HostStep::SetSensitivity(s, None)],
        LuaCommand::Exec(command) => r.len() == 1 && (r[0] matches HostStep::Spawn {
            command: started,
            name,
        } && started@ == command@ && name@ == program_name(command@)),
        LuaCommand::ToggleAppVisibility => if current is Some {
            r == seq![HostStep::<S>::ToggleAppVisibility]
        } else {
            r.len() == 0
        },
        LuaCommand::PressKey(key) => r == seq![HostStep::<S>::PressKey(key)],
        LuaCommand::Log(text) => r.len() == 1 && (r[0] matches HostStep::Log(t) && t@ == text@),
    }
}

fn switch_to<S: Copy>(mode: &str, overlay: bool, modes: &Vec<ModeSensitivity<S>>) -> (r: Vec<
    HostStep<S>,
>)
    ensures
        switch_steps(r@, mode@, overlay, modes@),
{
    let mut r: Vec<HostStep<S>> = Vec::new();
    if overlay {
        r.push(HostStep::SwitchMode(mode.to_owned()));
    }
    r.push(HostStep::UpdateModeName(mode.to_owned()));
    if let Some(s) = apply_mode_sensitivity(mode, modes) {
        r.push(s);
    }
    r
}

/// Turns a command of a script into the steps that carry it out.
pub fn process_lua_command<S: Copy>(
    c: LuaCommand<S>,
    current: Option<&str>,
    modes: &Vec<ModeSensitivity<S>>,
) -> (r: Vec<HostStep<S>>)
    ensures
        carries_out(
            r@,
            c,
            match current {
                Some(m) => Some(m@),
                None => None,
            },
            modes@,
        ),
{
    let mut r: Vec<HostStep<S>> = Vec::new();
    match c {
        LuaCommand::SwitchMode(name) => {
            return switch_to(name.as_str(), current.is_some(), modes);
        },
        LuaCommand::ToggleMode { main, fallback } => {
            if let Some(m) = current {
                let target = if same_text(m, main.as_str()) {
                    fallback
                } else {
                    main
                };
                if target.as_str().is_empty() {
                    r.push(HostStep::SwitchMode(target));
                } else {
                    return switch_to(target.as_str(), true, modes);
                }
            }
        },
        LuaCommand::ToggleGui => {
            if current.is_some() {
                r.push(HostStep::ToggleGui);
            }
        },
        LuaCommand::SetSensitivity(s) => {
            r.push(HostStep::SetSensitivity(s, None));
        },
        LuaCommand::Exec(command) => {
            let name = exec_name(command.as_str());
            r.push(HostStep::Spawn { command, name });
        },
        LuaCommand::ToggleAppVisibility => {
            if current.is_some() {
                r.push(HostStep::ToggleAppVisibility);
            }
        },
        LuaCommand::PressKey(key) => {
            r.push(HostStep::PressKey(key));
        },
        LuaCommand::Log(text) => {
            r.push(HostStep::Log(text));
        },
    }
    r
}

/// The mode of a name is the first one that has it.
pub proof fn law_first_mode_of_a_name<S>(
    modes: Seq<ModeSensitivity<S>>,
    id: Seq<char>,
    i: int,
)
    ensures
        0 <= i < modes.len() && modes[i].id@ == id && (forall|k: int|
            0 <= k < i ==> (#[trigger] modes[k]).id@ != id) ==> mode_index(modes, id, 0) == Some(i),
        (forall|k: int| 0 <= k < modes.len() ==> (#[trigger] modes[k]).id@ != id) ==> mode_index(
            modes,
            id,
            0,
        ) is None,
{
    if 0 <= i < modes.len() && modes[i].id@ == id && (forall|k: int|
        0 <= k < i ==> (#[trigger] modes[k]).id@ != id) {
        lemma_mode_index(modes, id, 0, i);
    }
    if forall|k: int| 0 <= k < modes.len() ==> (#[trigger] modes[k]).id@ != id {
        lemma_no_mode(modes, id, 0);
    }
}

proof fn lemma_mode_index<S>(modes: Seq<ModeSensitivity<S>>, id: Seq<char>, from: int, i: int)
    requires
        0 <= from <= i < modes.len(),
        modes[i].id@ == id,
        forall|k: int| from <= k < i ==> (#[trigger] modes[k]).id@ != id,
    ensures
        mode_index(modes, id, from) == Some(i),
    decreases i - from,
{
    if from < i {
        lemma_mode_index(modes, id, from + 1, i);
    }
}

proof fn lemma_no_mode<S>(modes: Seq<ModeSensitivity<S>>, id: Seq<char>, from: int)
    requires
        0 <= from <= modes.len(),
        forall|k: int| 0 <= k < modes.len() ==> (#[trigger] modes[k]).id@ != id,
    ensures
        mode_index(modes, id, from) is None,
    decreases modes.len() - from,
{
    if from < modes.len() {
        lemma_no_mode(modes, id, from + 1);
    }
}

/// A mode with a sensitivity of its own sets it, for both directions or for each;
/// any other mode gives the mouse its own again.
pub proof fn law_mode_sensitivity<S>(m: ModeSensitivity<S>)
    ensures
        !m.override_enabled ==> mode_step(m) is ClearSensitivity,
        m.override_enabled && !m.separate ==> mode_step(m) == HostStep::SetSensitivity(
            m.sensitivity,
            None,
        ),
        m.override_enabled && m.separate ==> mode_step(m) == HostStep::SetSensitivity(
            m.sensitivity,
            Some((m.x, m.y)),
        ),
{
}

/// A script that switches to a mode switches the overlay and tells the scripts
/// that mode, and no other; a toggle goes to its main mode from anywhere else,
/// and from there to its fallback.
pub proof fn law_scripts_switch_modes<S>(
    r: Seq<HostStep<S>>,
    name: String,
    fallback: String,
    current: Seq<char>,
    modes: Seq<ModeSensitivity<S>>,
    k: int,
)
    requires
        name@.len() > 0,
        fallback@.len() > 0,
    ensures
        carries_out(r, LuaCommand::SwitchMode(name), Some(current), modes) ==> (
        r[0] matches HostStep::SwitchMode(m) && m@ == name@) && (
        r[1] matches HostStep::UpdateModeName(m) && m@ == name@),
        carries_out(r, LuaCommand::SwitchMode(name), None, modes) ==> (
        r[0] matches HostStep::UpdateModeName(m) && m@ == name@),
        carries_out(r, LuaCommand::ToggleMode { main: name, fallback }, Some(current), modes)
            && current != name@ ==> (r[0] matches HostStep::SwitchMode(m) && m@ == name@) && (
        r[1] matches HostStep::UpdateModeName(m) && m@ == name@),
        carries_out(r, LuaCommand::ToggleMode { main: name, fallback }, Some(current), modes)
            && current == name@ ==> (r[0] matches HostStep::SwitchMode(m) && m@ == fallback@) && (
        r[1] matches HostStep::UpdateModeName(m) && m@ == fallback@),
        carries_out(r, LuaCommand::ToggleMode { main: name, fallback }, None, modes) ==> r.len()
            == 0,
        carries_out(r, LuaCommand::SwitchMode(name), Some(current), modes) && 0 <= k < modes.len()
            && modes[k].id@ == name@ && (forall|j: int|
            0 <= j < k ==> (#[trigger] modes[j]).id@ != name@) ==> r.len() == 3 && (
        modes[k].override_enabled ==> r[2] is SetSensitivity) && (!modes[k].override_enabled
            ==> r[2] is ClearSensitivity),
{
    law_first_mode_of_a_name(modes, name@, k);
}

/// What the other commands of a script do: each is one step that carries on what
/// the command holds; what belongs to the overlay happens only where there is one.
pub proof fn law_scripts_do_what_they_say<S>(
    r: Seq<HostStep<S>>,
    c: LuaCommand<S>,
    current: Option<Seq<char>>,
    modes: Seq<ModeSensitivity<S>>,
)
    requires
        carries_out(r, c, current, modes),
    ensures
        c matches LuaCommand::PressKey(key) ==> r == seq![HostStep::<S>::PressKey(key)],
        c matches LuaCommand::SetSensitivity(s) ==> r == seq![HostStep::SetSensitivity(s, None)],
        c matches LuaCommand::Log(text) ==> r.len() == 1 && (r[0] matches HostStep::Log(t) && t@
            == text@),
        c matches LuaCommand::Exec(line) ==> r.len() == 1 && (r[0] matches HostStep::Spawn {
            command,
            name,
        } && command@ == line@),
        c is ToggleGui ==> (current is Some ==> r.len() == 1 && r[0] is ToggleGui) && (
        current is None ==> r.len() == 0),
        c is ToggleAppVisibility ==> (current is Some ==> r.len() == 1
            && r[0] is ToggleAppVisibility) && (current is None ==> r.len() == 0),
{
}

/// A program is listed under its file name: without blanks in front, without the
/// directories of its path, and without its arguments. A command without a word
/// is listed as "exec".
pub proof fn law_program_names(
    blanks: Seq<char>,
    dir: Seq<char>,
    name: Seq<char>,
    arguments: Seq<char>,
)
    requires
        forall|i: int| 0 <= i < blanks.len() ==> is_white_space(#[trigger] blanks[i]),
        forall|i: int| 0 <= i < dir.len() ==> !is_white_space(#[trigger] dir[i]),
        forall|i: int| 0 <= i < name.len() ==> !is_white_space(#[trigger] name[i]) && name[i]
            != '/',
        name.len() > 0,
        dir.len() > 0 ==> dir.last() == '/',
        arguments.len() > 0 ==> is_white_space(arguments[0]),
    ensures
        program_name(blanks + dir + name + arguments) == name,
        program_name(blanks) == "exec"@,
{
    let s = blanks + dir + name + arguments;
    let word = dir + name;
    let n = blanks.len() as int;
    assert forall|k: int| 0 <= k < n implies is_white_space(#[trigger] s[k]) by {
        assert(s[k] == blanks[k]);
    }
    if dir.len() > 0 {
        assert(s[n] == dir[0]);
    } else {
        assert(s[n] == name[0]);
    }
    lemma_trim_front(s, n);
    let rest = s.skip(n);
    let e = word.len() as int;
    assert forall|k: int| 0 <= k < e implies !is_white_space(#[trigger] rest[k]) by {
        if k < dir.len() {
            assert(rest[k] == dir[k]);
        } else {
            assert(rest[k] == name[k - dir.len()]);
        }
    }
    if e < rest.len() {
        assert(rest[e] == arguments[0]);
    }
    lemma_leading_word(rest, e);
    assert(rest.take(e) =~= word);
    lemma_last_slash(dir, name);
    if dir.len() > 0 {
        assert(word.skip(dir.len() as int) =~= name);
    } else {
        assert(word =~= name);
    }
    lemma_trim_front(blanks, n);
    assert(blanks.skip(n) =~= Seq::<char>::empty());
}

proof fn lemma_last_slash(dir: Seq<char>, name: Seq<char>)
    requires
        forall|i: int| 0 <= i < name.len() ==> #[trigger] name[i] != '/',
        dir.len() > 0 ==> dir.last() == '/',
    ensures
        last_position(dir + name, '/') == if dir.len() > 0 {
            Some(dir.len() - 1)
        } else {
            None
        },
    decreases name.len(),
{
    let word = dir + name;
    if name.len() > 0 {
        assert(word.last() == name.last());
        assert(word.drop_last() =~= dir + name.drop_last());
        lemma_last_slash(dir, name.drop_last());
    } else {
        assert(word =~= dir);
    }
}

/// Toggling twice between two modes leads back: from one of them to the other,
/// and to it again.
pub proof fn law_toggle_twice(main: Seq<char>, fallback: Seq<char>)
    ensures
        toggle_target(main, main, fallback) == fallback,
        toggle_target(toggle_target(main, main, fallback), main, fallback) == main,
{
}

// ---------------------------------------------------------------------------
// The game's picture
// ---------------------------------------------------------------------------

/// The framebuffers from 1 to this number are looked over.
pub const PROBED_FRAMEBUFFERS: u32 = 64;

/// What is known of a framebuffer: whether it exists and is complete, whether a
/// texture is attached, and that texture and its size.
#[derive(Clone, Copy, Debug, PartialEq, Eq, Structural)]
pub struct FboProbe {
    pub id: u32,
    pub exists: bool,
    pub complete: bool,
    pub textured: bool,
    pub texture: i32,
    pub width: i32,
    pub height: i32,
}

/// A framebuffer that the game draws its picture into.
pub open spec fn is_game_fbo(p: FboProbe, mode_w: u32, mode_h: u32) -> bool {
    p.exists && p.complete && p.textured && p.texture > 0 && p.width as u32 == mode_w
        && p.height as u32 == mode_h
}

pub open spec fn game_fbo(v: Seq<FboProbe>, mode_w: u32, mode_h: u32, i: int) -> (u32, u32)
    decreases v.len() - i,
{
    if 0 <= i < v.len() {
        if is_game_fbo(v[i], mode_w, mode_h) {
            (v[i].id, v[i].texture as u32)
        } else {
            game_fbo(v, mode_w, mode_h, i + 1)
        }
    } else {
        (0, 0)
    }
}

/// The first framebuffer with a texture of the mode's size, and the texture;
/// zeros where there is none.
pub fn find_game_fbo_and_texture(v: &Vec<FboProbe>, mode_w: u32, mode_h: u32) -> (r: (u32, u32))
    ensures
        r == game_fbo(v@, mode_w, mode_h, 0),
{
    let mut i: usize = 0;
    while i < v.len()
        invariant
            i <= v@.len(),
            game_fbo(v@, mode_w, mode_h, 0) == game_fbo(v@, mode_w, mode_h, i as int),
        decreases v.len() - i,
    {
        let p = v[i];
        if p.exists && p.complete && p.textured && p.texture > 0 && p.width as u32 == mode_w
            && p.height as u32 == mode_h {
            return (p.id, p.texture as u32);
        }
        i += 1;
    }
    (0, 0)
}

/// The first framebuffer with a texture of the mode's size.
pub fn find_game_fbo(v: &Vec<FboProbe>, mode_w: u32, mode_h: u32) -> (r: u32)
    ensures
        r == game_fbo(v@, mode_w, mode_h, 0).0,
{
    find_game_fbo_and_texture(v, mode_w, mode_h).0
}

/// Which part of the game's picture goes where in the window.
#[derive(Clone, Copy, Debug, PartialEq, Eq, Structural)]
pub struct Centering {
    pub src_x: i32,
    pub src_y: i32,
    pub dst_x: i32,
    pub dst_y: i32,
    pub width: i32,
    pub height: i32,
}

/// Where an axis of the picture begins: it is cut on both sides alike where it
/// is longer than the window's.
pub open spec fn source_start(mode: int, window: int) -> int {
    if mode <= window {
        0
    } else {
        (mode - window) / 2
    }
}

/// Where an axis of the picture begins in the window.
pub open spec fn target_start(mode: int, window: int) -> int {
    if mode <= window {
        (window - mode) / 2
    } else {
        0
    }
}

pub open spec fn shown_length(mode: int, window: int) -> int {
    if mode <= window {
        mode
    } else {
        window
    }
}

pub open spec fn centering(mode_w: u32, mode_h: u32, win_w: u32, win_h: u32) -> Centering {
    Centering {
        src_x: source_start(mode_w as int, win_w as int) as i32,
        src_y: source_start(mode_h as int, win_h as int) as i32,
        dst_x: target_start(mode_w as int, win_w as int) as i32,
        dst_y: target_start(mode_h as int, win_h as int) as i32,
        width: shown_length(mode_w as int, win_w as int) as i32,
        height: shown_length(mode_h as int, win_h as int) as i32,
    }
}

/// A picture that lies where it should.
pub open spec fn is_aligned(c: Centering) -> bool {
    c.src_x == 0 && c.src_y == 0 && c.dst_x == 0 && c.dst_y == 0
}

/// Where the picture of a mode goes; `None` where it lies there already.
pub fn center_rects(mode_w: u32, mode_h: u32, win_w: u32, win_h: u32) -> (r: Option<Centering>)
    requires
        mode_w <= i32::MAX,
        mode_h <= i32::MAX,
        win_w <= i32::MAX,
        win_h <= i32::MAX,
    ensures
        r == if is_aligned(centering(mode_w, mode_h, win_w, win_h)) {
            None
        } else {
            Some(centering(mode_w, mode_h, win_w, win_h))
        },
{
    let (src_x, dst_x, width): (i32, i32, i32) = if mode_w <= win_w {
        (0, (win_w as i32 - mode_w as i32) / 2, mode_w as i32)
    } else {
        ((mode_w as i32 - win_w as i32) / 2, 0, win_w as i32)
    };
    let (src_y, dst_y, height): (i32, i32, i32) = if mode_h <= win_h {
        (0, (win_h as i32 - mode_h as i32) / 2, mode_h as i32)
    } else {
        ((mode_h as i32 - win_h as i32) / 2, 0, win_h as i32)
    };
    if src_x == 0 && src_y == 0 && dst_x == 0 && dst_y == 0 {
        None
    } else {
        Some(Centering { src_x, src_y, dst_x, dst_y, width, height })
    }
}

/// The picture stays inside the mode and inside the window and fills one of
/// them, and what is left over of the window, or cut off the picture, is the same
/// on both sides up to a pixel.
pub proof fn law_picture_is_centered(mode_w: u32, mode_h: u32, win_w: u32, win_h: u32)
    requires
        mode_w <= i32::MAX,
        mode_h <= i32::MAX,
        win_w <= i32::MAX,
        win_h <= i32::MAX,
    ensures
        ({
            let c = centering(mode_w, mode_h, win_w, win_h);
            &&& c.width == mode_w || c.width == win_w
            &&& c.height == mode_h || c.height == win_h
            &&& 0 <= c.src_x && c.src_x + c.width <= mode_w
            &&& 0 <= c.src_y && c.src_y + c.height <= mode_h
            &&& 0 <= c.dst_x && c.dst_x + c.width <= win_w
            &&& 0 <= c.dst_y && c.dst_y + c.height <= win_h
            &&& 0 <= (win_w - c.dst_x - c.width) - c.dst_x <= 1
            &&& 0 <= (win_h - c.dst_y - c.height) - c.dst_y <= 1
            &&& 0 <= (mode_w - c.src_x - c.width) - c.src_x <= 1
            &&& 0 <= (mode_h - c.src_y - c.height) - c.src_y <= 1
        }),
{
}

/// The framebuffer and texture that the picture is moved through, with the
/// texture's size; zeros before they are made.
#[derive(Clone, Copy, Debug, PartialEq, Eq, Structural)]
pub struct CenterBuffer {
    pub fbo: u32,
    pub texture: u32,
    pub width: u32,
    pub height: u32,
}

impl CenterBuffer {
    pub fn new() -> (r: CenterBuffer)
        ensures
            r == (CenterBuffer { fbo: 0, texture: 0, width: 0, height: 0 }),
    {
        CenterBuffer { fbo: 0, texture: 0, width: 0, height: 0 }
    }

    /// Whether the framebuffer and its texture have to be made.
    pub fn needs_objects(&self) -> (r: bool)
        ensures
            r == (self.fbo == 0),
    {
        self.fbo == 0
    }

    /// Reports the framebuffer and the texture that were made.
    pub fn made(&mut self, fbo: u32, texture: u32)
        ensures
            *final(self) == (CenterBuffer { fbo, texture, ..*old(self) }),
    {
        self.fbo = fbo;
        self.texture = texture;
    }

    /// Whether the texture has to get a new size.
    pub fn needs_resize(&self, c: &Centering) -> (r: bool)
        ensures
            r == (self.width != c.width as u32 || self.height != c.height as u32),
    {
        self.width != c.width as u32 || self.height != c.height as u32
    }

    /// Reports that the texture got a new size, and whether the framebuffer is
    /// complete with it. One that is not is tried again in the next frame.
    pub fn resized(&mut self, c: &Centering, complete: bool) -> (r: bool)
        ensures
            r == complete,
            *final(self) == if complete {
                CenterBuffer { width: c.width as u32, height: c.height as u32, ..*old(self) }
            } else {
                *old(self)
            },
    {
        if complete {
            self.width = c.width as u32;
            self.height = c.height as u32;
        }
        complete
    }
}

/// The framebuffer that the picture is read from: for a mode that is larger than
/// the window the game's own or the virtual one, else the window's.
pub open spec fn read_source(larger: bool, game: u32, virtual_active: bool, virtual_fbo: u32) -> u32 {
    if !larger {
        0
    } else if game != 0 {
        game
    } else if virtual_active {
        virtual_fbo
    } else {
        0
    }
}

pub fn read_framebuffer(
    mode_w: u32,
    mode_h: u32,
    win_w: u32,
    win_h: u32,
    probes: &Vec<FboProbe>,
    virtual_active: bool,
    virtual_fbo: u32,
) -> (r: u32)
    ensures
        r == read_source(
            mode_h > win_h || mode_w > win_w,
            game_fbo(probes@, mode_w, mode_h, 0).0,
            virtual_active,
            virtual_fbo,
        ),
{
    if mode_h > win_h || mode_w > win_w {
        let game: u32 = find_game_fbo(probes, mode_w, mode_h);
        if game != 0 {
            game
        } else if virtual_active {
            virtual_fbo
        } else {
            0
        }
    } else {
        0
    }
}

/// A drawing step. `Back` and `Attached` name the buffers of a framebuffer.
#[derive(Clone, Copy, Debug, PartialEq, Eq, Structural)]
pub enum DrawStep {
    BindRead(u32),
    BindDraw(u32),
    BindBoth(u32),
    ReadBack,
    ReadAttached,
    DrawBack,
    DrawAttached,
    /// Copy a rectangle at `(sx, sy)` to `(dx, dy)`.
    Blit { sx: i32, sy: i32, dx: i32, dy: i32, width: i32, height: i32 },
    /// Paint the whole window black.
    ClearWindow { width: i32, height: i32 },
    DrawBuffer(u32),
    ReadBuffer(u32),
}

/// The steps that move the picture: into the texture, and from there to its
/// place in the cleared window. The buffers that were in use are set again.
pub open spec fn move_steps(
    c: Centering,
    fbo: u32,
    read_fbo: u32,
    win_w: u32,
    win_h: u32,
    prev_draw: i32,
    prev_read: i32,
) -> Seq<DrawStep> {
    seq![
        DrawStep::BindRead(read_fbo),
        if read_fbo == 0 {
            DrawStep::ReadBack
        } else {
            DrawStep::ReadAttached
        },
        DrawStep::BindDraw(fbo),
        DrawStep::DrawAttached,
        DrawStep::Blit {
            sx: c.src_x,
            sy: c.src_y,
            dx: 0,
            dy: 0,
            width: c.width,
            height: c.height,
        },
        DrawStep::BindDraw(0),
        DrawStep::ClearWindow { width: win_w as i32, height: win_h as i32 },
        DrawStep::BindRead(fbo),
        DrawStep::BindDraw(0),
        DrawStep::ReadAttached,
        DrawStep::DrawBack,
        DrawStep::Blit {
            sx: 0,
            sy: 0,
            dx: c.dst_x,
            dy: c.dst_y,
            width: c.width,
            height: c.height,
        },
        DrawStep::BindBoth(0),
    ] + (if prev_draw != 0 {
        seq![DrawStep::DrawBuffer(prev_draw as u32)]
    } else {
        Seq::empty()
    }) + (if prev_read != 0 {
        seq![DrawStep::ReadBuffer(prev_read as u32)]
    } else {
        Seq::empty()
    })
}

/// The steps that bring the game's picture to the middle of the window.
pub fn center_game_content(
    c: Centering,
    fbo: u32,
    read_fbo: u32,
    win_w: u32,
    win_h: u32,
    prev_draw: i32,
    prev_read: i32,
) -> (r: Vec<DrawStep>)
    ensures
        r@ == move_steps(c, fbo, read_fbo, win_w, win_h, prev_draw, prev_read),
{
    let mut r: Vec<DrawStep> = Vec::new();
    r.push(DrawStep::BindRead(read_fbo));
    if read_fbo == 0 {
        r.push(DrawStep::ReadBack);
    } else {
        r.push(DrawStep::ReadAttached);
    }
    r.push(DrawStep::BindDraw(fbo));
    r.push(DrawStep::DrawAttached);
    r.push(
        DrawStep::Blit {
            sx: c.src_x,
            sy: c.src_y,
            dx: 0,
            dy: 0,
            width: c.width,
            height: c.height,
        },
    );
    r.push(DrawStep::BindDraw(0));
    r.push(DrawStep::ClearWindow { width: win_w as i32, height: win_h as i32 });
    r.push(DrawStep::BindRead(fbo));
    r.push(DrawStep::BindDraw(0));
    r.push(DrawStep::ReadAttached);
    r.push(DrawStep::DrawBack);
    r.push(
        DrawStep::Blit {
            sx: 0,
            sy: 0,
            dx: c.dst_x,
            dy: c.dst_y,
            width: c.width,
            height: c.height,
        },
    );
    r.push(DrawStep::BindBoth(0));
    if prev_draw != 0 {
        r.push(DrawStep::DrawBuffer(prev_draw as u32));
    }
    if prev_read != 0 {
        r.push(DrawStep::ReadBuffer(prev_read as u32));
    }
    r
}

/// The name of the buffer of a window that is drawn next.
pub const BACK_BUFFER: u32 = 0x0405;

/// The name of the buffer of a framebuffer that its first texture holds.
pub const ATTACHED_BUFFER: u32 = 0x8ce0;

/// The color that the window is cleared with.
pub const BLACK: u32 = 0;

/// What drawing works on: the framebuffers in use, which buffer of each is read
/// and which is drawn to, and the color of each pixel of each buffer of each
/// framebuffer. Framebuffer 0 is the window.
pub struct Canvas {
    pub read: u32,
    pub draw: u32,
    pub read_buffer: spec_fn(u32) -> u32,
    pub draw_buffer: spec_fn(u32) -> u32,
    pub pixel: spec_fn(u32, u32, int, int) -> u32,
}

/// The canvas with another buffer to read of the framebuffer that is read.
pub open spec fn reading(s: Canvas, buffer: u32) -> Canvas {
    Canvas {
        read_buffer: |f: u32|
            if f == s.read {
                buffer
            } else {
                (s.read_buffer)(f)
            },
        ..s
    }
}

/// The canvas with another buffer to draw to of the framebuffer that is drawn.
pub open spec fn drawing(s: Canvas, buffer: u32) -> Canvas {
    Canvas {
        draw_buffer: |f: u32|
            if f == s.draw {
                buffer
            } else {
                (s.draw_buffer)(f)
            },
        ..s
    }
}

/// What a drawing step does.
pub open spec fn after_step(s: Canvas, step: DrawStep) -> Canvas {
    match step {
        DrawStep::BindRead(f) => Canvas { read: f, ..s },
        DrawStep::BindDraw(f) => Canvas { draw: f, ..s },
        DrawStep::BindBoth(f) => Canvas { read: f, draw: f, ..s },
        DrawStep::ReadBack => reading(s, BACK_BUFFER),
        DrawStep::ReadAttached => reading(s, ATTACHED_BUFFER),
        DrawStep::DrawBack => drawing(s, BACK_BUFFER),
        DrawStep::DrawAttached => drawing(s, ATTACHED_BUFFER),
        DrawStep::Blit { sx, sy, dx, dy, width, height } => Canvas {
            pixel: |f: u32, b: u32, x: int, y: int|
                if f == s.draw && b == (s.draw_buffer)(s.draw) && dx <= x < dx + width && dy <= y
                    < dy + height {
                    (s.pixel)(s.read, (s.read_buffer)(s.read), x - dx + sx, y - dy + sy)
                } else {
                    (s.pixel)(f, b, x, y)
                },
            ..s
        },
        DrawStep::ClearWindow { width, height } => Canvas {
            pixel: |f: u32, b: u32, x: int, y: int|
                if f == s.draw && b == (s.draw_buffer)(s.draw) && 0 <= x < width && 0 <= y
                    < height {
                    BLACK
                } else {
                    (s.pixel)(f, b, x, y)
                },
            ..s
        },
        DrawStep::DrawBuffer(b) => drawing(s, b),
        DrawStep::ReadBuffer(b) => reading(s, b),
    }
}

/// What drawing steps do, one after the other.
pub open spec fn after_steps(s: Canvas, steps: Seq<DrawStep>) -> Canvas
    decreases steps.len(),
{
    if steps.len() == 0 {
        s
    } else {
        after_step(after_steps(s, steps.drop_last()), steps.last())
    }
}

/// The color of a pixel in the framebuffer that the game's picture is in.
pub open spec fn game_pixel(s: Canvas, read_fbo: u32, x: int, y: int) -> u32 {
    (s.pixel)(
        read_fbo,
        if read_fbo == 0 {
            BACK_BUFFER
        } else {
            ATTACHED_BUFFER
        },
        x,
        y,
    )
}

proof fn lemma_after_steps_push(s: Canvas, steps: Seq<DrawStep>, step: DrawStep)
    ensures
        after_steps(s, steps.push(step)) == after_step(after_steps(s, steps), step),
{
    assert(steps.push(step).drop_last() =~= steps);
}

/// What is drawn in front of the steps that set the buffers again.
proof fn lemma_moved(
    s: Canvas,
    c: Centering,
    fbo: u32,
    read_fbo: u32,
    win_w: u32,
    win_h: u32,
)
    requires
        fbo != 0,
        fbo != read_fbo,
        (s.draw_buffer)(0) == BACK_BUFFER,
        win_w <= i32::MAX,
        win_h <= i32::MAX,
    ensures
        ({
            let e = after_steps(s, move_steps(c, fbo, read_fbo, win_w, win_h, 0, 0));
            &&& e.read == 0
            &&& e.draw == 0
            &&& (e.draw_buffer)(0) == BACK_BUFFER
            &&& forall|x: int, y: int|
                0 <= x < win_w && 0 <= y < win_h ==> #[trigger] (e.pixel)(0, BACK_BUFFER, x, y)
                    == if c.dst_x <= x < c.dst_x + c.width && c.dst_y <= y < c.dst_y + c.height {
                    game_pixel(s, read_fbo, x - c.dst_x + c.src_x, y - c.dst_y + c.src_y)
                } else {
                    BLACK
                }
        }),
{
    let all = move_steps(c, fbo, read_fbo, win_w, win_h, 0, 0);
    let s0 = after_steps(s, all.take(0));
    assert(s0 == s);
    let s1 = after_step(s0, all[0]);
    let s2 = after_step(s1, all[1]);
    let s3 = after_step(s2, all[2]);
    let s4 = after_step(s3, all[3]);
    let s5 = after_step(s4, all[4]);
    let s6 = after_step(s5, all[5]);
    let s7 = after_step(s6, all[6]);
    let s8 = after_step(s7, all[7]);
    let s9 = after_step(s8, all[8]);
    let s10 = after_step(s9, all[9]);
    let s11 = after_step(s10, all[10]);
    let s12 = after_step(s11, all[11]);
    let s13 = after_step(s12, all[12]);
    lemma_after_steps_push(s, all.take(0), all[0]);
    lemma_after_steps_push(s, all.take(1), all[1]);
    lemma_after_steps_push(s, all.take(2), all[2]);
    lemma_after_steps_push(s, all.take(3), all[3]);
    lemma_after_steps_push(s, all.take(4), all[4]);
    lemma_after_steps_push(s, all.take(5), all[5]);
    lemma_after_steps_push(s, all.take(6), all[6]);
    lemma_after_steps_push(s, all.take(7), all[7]);
    lemma_after_steps_push(s, all.take(8), all[8]);
    lemma_after_steps_push(s, all.take(9), all[9]);
    lemma_after_steps_push(s, all.take(10), all[10]);
    lemma_after_steps_push(s, all.take(11), all[11]);
    lemma_after_steps_push(s, all.take(12), all[12]);
    assert(all.take(1) == all.take(0).push(all[0]));
    assert(all.take(2) == all.take(1).push(all[1]));
    assert(all.take(3) == all.take(2).push(all[2]));
    assert(all.take(4) == all.take(3).push(all[3]));
    assert(all.take(5) == all.take(4).push(all[4]));
    assert(all.take(6) == all.take(5).push(all[5]));
    assert(all.take(7) == all.take(6).push(all[6]));
    assert(all.take(8) == all.take(7).push(all[7]));
    assert(all.take(9) == all.take(8).push(all[8]));
    assert(all.take(10) == all.take(9).push(all[9]));
    assert(all.take(11) == all.take(10).push(all[10]));
    assert(all.take(12) == all.take(11).push(all[11]));
    assert(all.take(13) == all.take(12).push(all[12]));
    assert(after_steps(s, all.take(13)) == s13);
    assert(all.take(13) =~= all);
}

/// After the steps each pixel of the window shows the pixel of the game's picture
/// that belongs there, and the rest of the window is black. The window is in use
/// again, with the buffers that were in use before.
pub proof fn law_picture_is_moved(
    s: Canvas,
    c: Centering,
    fbo: u32,
    read_fbo: u32,
    win_w: u32,
    win_h: u32,
    prev_draw: i32,
    prev_read: i32,
)
    requires
        fbo != 0,
        fbo != read_fbo,
        (s.draw_buffer)(0) == BACK_BUFFER,
        win_w <= i32::MAX,
        win_h <= i32::MAX,
    ensures
        ({
            let e = after_steps(
                s,
                move_steps(c, fbo, read_fbo, win_w, win_h, prev_draw, prev_read),
            );
            &&& forall|x: int, y: int|
                0 <= x < win_w && 0 <= y < win_h ==> #[trigger] (e.pixel)(0, BACK_BUFFER, x, y)
                    == if c.dst_x <= x < c.dst_x + c.width && c.dst_y <= y < c.dst_y + c.height {
                    game_pixel(s, read_fbo, x - c.dst_x + c.src_x, y - c.dst_y + c.src_y)
                } else {
                    BLACK
                }
            &&& e.read == 0 && e.draw == 0
            &&& prev_draw != 0 ==> (e.draw_buffer)(0) == prev_draw as u32
            &&& prev_read != 0 ==> (e.read_buffer)(0) == prev_read as u32
        }),
{
    let front = move_steps(c, fbo, read_fbo, win_w, win_h, 0, 0);
    let all = move_steps(c, fbo, read_fbo, win_w, win_h, prev_draw, prev_read);
    lemma_moved(s, c, fbo, read_fbo, win_w, win_h);
    let drawn = if prev_draw != 0 {
        front.push(DrawStep::DrawBuffer(prev_draw as u32))
    } else {
        front
    };
    let last = if prev_read != 0 {
        drawn.push(DrawStep::ReadBuffer(prev_read as u32))
    } else {
        drawn
    };
    assert(all =~= last);
    lemma_after_steps_push(s, front, DrawStep::DrawBuffer(prev_draw as u32));
    lemma_after_steps_push(s, drawn, DrawStep::ReadBuffer(prev_read as u32));
}

/// The picture of a mode is left where it is only where nothing would move: no
/// part of it is cut off in front, and none of the window is left over in front.
pub proof fn law_only_aligned_pictures_stay(mode_w: u32, mode_h: u32, win_w: u32, win_h: u32)
    requires
        mode_w <= i32::MAX,
        mode_h <= i32::MAX,
        win_w <= i32::MAX,
        win_h <= i32::MAX,
    ensures
        is_aligned(centering(mode_w, mode_h, win_w, win_h)) <==> -1 <= mode_w - win_w <= 1 && -1
            <= mode_h - win_h <= 1,
{
}

/// The framebuffer that is taken for the game's is the first one that is
/// complete and holds a texture of the mode's size; only where there is none
/// nothing is found.
pub proof fn law_game_fbo_fits(v: Seq<FboProbe>, mode_w: u32, mode_h: u32, i: int)
    requires
        0 <= i < v.len(),
        v[i].exists && v[i].complete && v[i].textured && v[i].texture > 0,
        v[i].width as u32 == mode_w && v[i].height as u32 == mode_h,
        forall|k: int|
            0 <= k < i ==> {
                let p = #[trigger] v[k];
                !p.exists || !p.complete || !p.textured || p.texture <= 0 || p.width as u32
                    != mode_w || p.height as u32 != mode_h
            },
    ensures
        game_fbo(v, mode_w, mode_h, 0) == (v[i].id, v[i].texture as u32),
{
    lemma_game_fbo_from(v, mode_w, mode_h, i, 0);
}

proof fn lemma_game_fbo_from(v: Seq<FboProbe>, mode_w: u32, mode_h: u32, i: int, from: int)
    requires
        0 <= from <= i < v.len(),
        is_game_fbo(v[i], mode_w, mode_h),
        forall|k: int| from <= k < i ==> !is_game_fbo(#[trigger] v[k], mode_w, mode_h),
    ensures
        game_fbo(v, mode_w, mode_h, from) == (v[i].id, v[i].texture as u32),
    decreases i - from,
{
    if from < i {
        lemma_game_fbo_from(v, mode_w, mode_h, i, from + 1);
    }
}

/// Where no framebuffer fits, the picture of a mode that is larger than the
/// window is read from the virtual one if that is in use; a mode that fits is
/// always read from the window.
pub proof fn law_picture_is_read_where_it_is(
    v: Seq<FboProbe>,
    mode_w: u32,
    mode_h: u32,
    virtual_active: bool,
    virtual_fbo: u32,
)
    ensures
        read_source(false, game_fbo(v, mode_w, mode_h, 0).0, virtual_active, virtual_fbo) == 0,
        game_fbo(v, mode_w, mode_h, 0).0 != 0 ==> read_source(
            true,
            game_fbo(v, mode_w, mode_h, 0).0,
            virtual_active,
            virtual_fbo,
        ) == game_fbo(v, mode_w, mode_h, 0).0,
        (forall|k: int|
            0 <= k < v.len() ==> (#[trigger] v[k]).width as u32 != mode_w || v[k].height as u32
                != mode_h) ==> read_source(
            true,
            game_fbo(v, mode_w, mode_h, 0).0,
            virtual_active,
            virtual_fbo,
        ) == if virtual_active {
            virtual_fbo
        } else {
            0
        },
{
    if forall|k: int|
        0 <= k < v.len() ==> (#[trigger] v[k]).width as u32 != mode_w || v[k].height as u32
            != mode_h {
        lemma_no_game_fbo(v, mode_w, mode_h, 0);
    }
}

proof fn lemma_no_game_fbo(v: Seq<FboProbe>, mode_w: u32, mode_h: u32, from: int)
    requires
        0 <= from <= v.len(),
        forall|k: int|
            0 <= k < v.len() ==> (#[trigger] v[k]).width as u32 != mode_w || v[k].height as u32
                != mode_h,
    ensures
        game_fbo(v, mode_w, mode_h, from) == (0u32, 0u32),
    decreases v.len() - from,
{
    if from < v.len() {
        lemma_no_game_fbo(v, mode_w, mode_h, from + 1);
    }
}

/// A rectangle of the window.
#[derive(Clone, Copy, Debug, PartialEq, Eq, Structural)]
pub struct WindowRect {
    pub x: i32,
    pub y: i32,
    pub width: i32,
    pub height: i32,
}

/// Half of a length, rounded toward zero.
pub open spec fn half(n: int) -> int {
    if n >= 0 {
        n / 2
    } else {
        -((-n) / 2)
    }
}

/// The borders beside a mode's picture: left and right over the whole height,
/// then bottom and top between them.
pub open spec fn border_rects(mode_w: int, mode_h: int, win_w: int, win_h: int) -> Seq<WindowRect> {
    let cx = half(win_w - mode_w);
    let cy = half(win_h - mode_h);
    (if cx > 0 {
        seq![
            WindowRect { x: 0, y: 0, width: cx as i32, height: win_h as i32 },
            WindowRect {
                x: (cx + mode_w) as i32,
                y: 0,
                width: (win_w - cx - mode_w) as i32,
                height: win_h as i32,
            },
        ]
    } else {
        Seq::empty()
    }) + (if cy > 0 {
        seq![
            WindowRect { x: cx as i32, y: 0, width: mode_w as i32, height: cy as i32 },
            WindowRect {
                x: cx as i32,
                y: (cy + mode_h) as i32,
                width: mode_w as i32,
                height: (win_h - cy - mode_h) as i32,
            },
        ]
    } else {
        Seq::empty()
    })
}

/// The parts of the window that are painted black around a mode's picture.
pub fn clear_mode_borders(mode_w: u32, mode_h: u32, win_w: u32, win_h: u32) -> (r: Vec<WindowRect>)
    requires
        mode_w <= i32::MAX,
        mode_h <= i32::MAX,
        win_w <= i32::MAX,
        win_h <= i32::MAX,
    ensures
        r@ == border_rects(mode_w as int, mode_h as int, win_w as int, win_h as int),
{
    let ow: i32 = win_w as i32;
    let oh: i32 = win_h as i32;
    let mw: i32 = mode_w as i32;
    let mh: i32 = mode_h as i32;
    let cx: i32 = if ow >= mw {
        (ow - mw) / 2
    } else {
        -((mw - ow) / 2)
    };
    let cy: i32 = if oh >= mh {
        (oh - mh) / 2
    } else {
        -((mh - oh) / 2)
    };
    let mut r: Vec<WindowRect> = Vec::new();
    if cx > 0 {
        r.push(WindowRect { x: 0, y: 0, width: cx, height: oh });
        r.push(WindowRect { x: cx + mw, y: 0, width: ow - cx - mw, height: oh });
    }
    if cy > 0 {
        r.push(WindowRect { x: cx, y: 0, width: mw, height: cy });
        r.push(WindowRect { x: cx, y: cy + mh, width: mw, height: oh - cy - mh });
    }
    r
}

/// A point lies in a rectangle.
pub open spec fn rect_has(r: WindowRect, x: int, y: int) -> bool {
    r.x <= x < r.x + r.width && r.y <= y < r.y + r.height
}

/// A point lies in one of the rectangles.
pub open spec fn rects_have(v: Seq<WindowRect>, x: int, y: int) -> bool {
    exists|i: int| 0 <= i < v.len() && rect_has(#[trigger] v[i], x, y)
}

/// The borders are exactly the window without the picture, where the picture
/// fits into the window and does not miss it by a single pixel in a direction.
pub proof fn law_borders_surround(
    mode_w: int,
    mode_h: int,
    win_w: int,
    win_h: int,
    x: int,
    y: int,
)
    requires
        0 <= mode_w <= win_w <= i32::MAX,
        0 <= mode_h <= win_h <= i32::MAX,
        win_w - mode_w != 1,
        win_h - mode_h != 1,
        0 <= x < win_w,
        0 <= y < win_h,
    ensures
        rects_have(border_rects(mode_w, mode_h, win_w, win_h), x, y) <==> !(half(win_w - mode_w)
            <= x < half(win_w - mode_w) + mode_w && half(win_h - mode_h) <= y < half(
            win_h - mode_h,
        ) + mode_h),
{
    let cx = half(win_w - mode_w);
    let cy = half(win_h - mode_h);
    let v = border_rects(mode_w, mode_h, win_w, win_h);
    let n = if cx > 0 {
        2int
    } else {
        0int
    };
    if x < cx {
        assert(rect_has(v[0], x, y));
    } else if x >= cx + mode_w {
        assert(rect_has(v[1], x, y));
    } else if y < cy {
        assert(rect_has(v[n], x, y));
    } else if y >= cy + mode_h {
        assert(rect_has(v[n + 1], x, y));
    } else {
        assert forall|i: int| 0 <= i < v.len() implies !rect_has(#[trigger] v[i], x, y) by {
            if cx > 0 {
                assert(i == 0 || i == 1 || i == 2 || i == 3);
            } else {
                assert(i == 0 || i == 1);
            }
        }
    }
}

/// The size of the window as the drawing area tells it, unless a mode has
/// changed that.
pub fn capture_original_size(mode_w: u32, viewport: (i32, i32)) -> (r: Option<(u32, u32)>)
    ensures
        r == if mode_w == 0 && viewport.0 as u32 > 0 && viewport.1 as u32 > 0 {
            Some((viewport.0 as u32, viewport.1 as u32))
        } else {
            None
        },
{
    if mode_w > 0 {
        return None;
    }
    let w: u32 = viewport.0 as u32;
    let h: u32 = viewport.1 as u32;
    if w > 0 && h > 0 {
        Some((w, h))
    } else {
        None
    }
}

// ---------------------------------------------------------------------------
// The overlay
// ---------------------------------------------------------------------------

/// Whether the overlay had anything to draw in the last frame.
pub struct SceneState {
    pub active: bool,
}

impl SceneState {
    pub fn new() -> (r: SceneState)
        ensures
            r.active,
    {
        SceneState { active: true }
    }
}

/// Notes whether the overlay had anything to draw.
pub fn set_scene_active(scene: &mut SceneState, active: bool)
    ensures
        final(scene).active == active,
{
    scene.active = active;
}

/// What is done for a frame: nothing, only the commands, or everything.
#[derive(Clone, Copy, Debug, PartialEq, Eq, Structural)]
pub enum RenderPath {
    Nothing,
    CommandsOnly,
    Full,
}

pub fn render_overlay(
    init: &InitState,
    scene: &SceneState,
    gui_visible: bool,
    has_apps: bool,
) -> (r: RenderPath)
    ensures
        r == if !init.initialized {
            RenderPath::Nothing
        } else if !scene.active && !gui_visible && !has_apps {
            RenderPath::CommandsOnly
        } else {
            RenderPath::Full
        },
{
    if !init.initialized {
        RenderPath::Nothing
    } else if !scene.active && !gui_visible && !has_apps {
        RenderPath::CommandsOnly
    } else {
        RenderPath::Full
    }
}

/// What is drawn for a frame: whether the picture is moved, whether borders are
/// painted, the size of the overlay and the size that scripts are told.
#[derive(Clone, Copy, Debug, PartialEq, Eq)]
pub struct FramePlan {
    pub center: bool,
    pub borders: bool,
    pub size: (u32, u32),
    pub active_res: (u32, u32),
}

/// A mode has a size of its own.
pub open spec fn is_resized(mode: (u32, u32), window: (u32, u32)) -> bool {
    mode.0 > 0 && mode.1 > 0 && mode != window
}

/// The plan for a frame of a window whose size is known. `oversized` tells
/// whether the mode is larger than the window, `hooked` whether the game's own
/// drawing is moved already, and `in_place` whether the window keeps its size in
/// every mode.
pub open spec fn plan_of(
    window: (u32, u32),
    mode: (u32, u32),
    oversized: bool,
    hooked: bool,
    in_place: bool,
) -> FramePlan {
    FramePlan {
        center: is_resized(mode, window) && (oversized || !hooked),
        borders: in_place && is_resized(mode, window) && !oversized && hooked,
        size: window,
        active_res: if mode.0 > 0 && mode.1 > 0 {
            mode
        } else {
            window
        },
    }
}

/// The plan for a frame; `None` while the window's size is unknown.
pub fn frame_plan(
    window: (u32, u32),
    mode: (u32, u32),
    oversized: bool,
    hooked: bool,
    in_place: bool,
) -> (r: Option<FramePlan>)
    ensures
        r == if window.0 > 0 && window.1 > 0 {
            Some(plan_of(window, mode, oversized, hooked, in_place))
        } else {
            None
        },
{
    if window.0 == 0 || window.1 == 0 {
        return None;
    }
    let resized = mode.0 > 0 && mode.1 > 0 && (mode.0 != window.0 || mode.1 != window.1);
    let active_res: (u32, u32) = if mode.0 > 0 && mode.1 > 0 {
        mode
    } else {
        window
    };
    Some(
        FramePlan {
            center: resized && (oversized || !hooked),
            borders: in_place && resized && !oversized && hooked,
            size: window,
            active_res,
        },
    )
}

/// The picture is never both moved and bordered, and a mode of the window's size
/// is left as it is.
pub proof fn law_center_or_borders(
    window: (u32, u32),
    mode: (u32, u32),
    oversized: bool,
    hooked: bool,
    in_place: bool,
)
    ensures
        !(plan_of(window, mode, oversized, hooked, in_place).center && plan_of(
            window,
            mode,
            oversized,
            hooked,
            in_place,
        ).borders),
        mode == window ==> !plan_of(window, mode, oversized, hooked, in_place).center && !plan_of(
            window,
            mode,
            oversized,
            hooked,
            in_place,
        ).borders,
{
}

// ---------------------------------------------------------------------------
// The real function
// ---------------------------------------------------------------------------

/// The function that really swaps the buffers; 0 stands for none. The driver's
/// own is taken before the overlay is ready and where the settings ask for it,
/// if it is known; else the next one in the chain.
pub fn select_swap_ptr(
    next: u64,
    original: u64,
    initialized: bool,
    disable_chaining: bool,
    original_target: bool,
) -> (r: u64)
    ensures
        r == if (!initialized || disable_chaining || original_target) && original != 0 {
            original
        } else {
            next
        },
{
    let skip_chain = if initialized {
        disable_chaining || original_target
    } else {
        true
    };
    if skip_chain && original != 0 {
        return original;
    }
    next
}

/// A picture is moved where the mode has a size of its own that is not the
/// window's, unless it fits and the game draws it in its place already; where the
/// window keeps its size, borders are painted around such a one. The overlay is
/// as large as the window, and scripts are told the size of the mode.
pub proof fn law_frame_plans(
    window: (u32, u32),
    mode: (u32, u32),
    in_place: bool,
)
    requires
        window.0 > 0,
        window.1 > 0,
    ensures
        forall|oversized: bool, hooked: bool|
            (#[trigger] plan_of(window, mode, oversized, hooked, in_place)).size == window,
        mode.0 > 0 && mode.1 > 0 && mode != window ==> {
            &&& plan_of(window, mode, true, true, in_place).center
            &&& plan_of(window, mode, true, false, in_place).center
            &&& plan_of(window, mode, false, false, in_place).center
            &&& !plan_of(window, mode, false, true, in_place).center
            &&& plan_of(window, mode, false, true, in_place).borders == in_place
            &&& !plan_of(window, mode, false, false, in_place).borders
            &&& plan_of(window, mode, true, true, in_place).active_res == mode
        },
        mode.0 == 0 || mode.1 == 0 ==> !plan_of(window, mode, true, true, in_place).center
            && !plan_of(window, mode, false, false, in_place).center && plan_of(
            window,
            mode,
            false,
            false,
            in_place,
        ).active_res == window,
{
}

/// The size of the window is taken from the drawing area only while no mode has
/// changed it, and only where it has an extent.
pub proof fn law_window_size(mode_w: u32, viewport: (i32, i32), r: Option<(u32, u32)>)
    requires
        call_ensures(capture_original_size, (mode_w, viewport), r),
    ensures
        mode_w > 0 ==> r is None,
        mode_w == 0 && viewport.0 > 0 && viewport.1 > 0 ==> r == Some(
            (viewport.0 as u32, viewport.1 as u32),
        ),
        viewport.0 == 0 || viewport.1 == 0 ==> r is None,
{
}

/// Before the overlay is ready nothing is drawn; then everything is, unless there
/// is nothing to see: no scene, no settings and no companion apps.
pub proof fn law_overlay_is_drawn(
    init: &InitState,
    scene: &SceneState,
    gui_visible: bool,
    has_apps: bool,
    r: RenderPath,
)
    requires
        call_ensures(render_overlay, (init, scene, gui_visible, has_apps), r),
    ensures
        !init.initialized <==> r is Nothing,
        init.initialized && (scene.active || gui_visible || has_apps) ==> r is Full,
        init.initialized && !scene.active && !gui_visible && !has_apps ==> r is CommandsOnly,
{
}

/// The driver's own swap is taken before the overlay is ready, and later where the
/// settings ask for it; the next in the chain else, and where the own is unknown.
pub proof fn law_swap_chain(
    next: u64,
    original: u64,
    initialized: bool,
    disable_chaining: bool,
    original_target: bool,
    r: u64,
)
    requires
        call_ensures(
            select_swap_ptr,
            (next, original, initialized, disable_chaining, original_target),
            r,
        ),
    ensures
        original == 0 ==> r == next,
        original != 0 && !initialized ==> r == original,
        original != 0 && (disable_chaining || original_target) ==> r == original,
        initialized && !disable_chaining && !original_target ==> r == next,
{
}

} // verus!
