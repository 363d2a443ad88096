//! What becomes of keys, mouse buttons and the cursor: whether the settings, a
//! hotkey or the game gets them, and what a hotkey does.

use crate::state_watcher::StateModStatus;
use crate::swap_hook::{ModeSensitivity, apply_mode_sensitivity, HostStep};
use crate::text::same_text;
use vstd::prelude::*;
use vstd::string::*;

verus! {

use crate::swap_hook::{mode_index, mode_step};

/// A key goes down.
pub const PRESS: i32 = 1;

/// A key goes up.
pub const RELEASE: i32 = 0;

pub const KEY_ESCAPE: i32 = 256;

// ---------------------------------------------------------------------------
// Hotkeys
// ---------------------------------------------------------------------------

/// What a hotkey asks for. `S` is a mouse sensitivity.
pub enum HotkeyAction<S> {
    SwitchMode { main: String, secondary: String },
    ToggleSensitivity { sensitivity: S, separate: bool, x: S, y: S },
    ToggleGui,
    ToggleImageOverlays,
    ToggleWindowOverlays,
    ToggleBorderless,
    ToggleAppVisibility,
    ToggleNinjabrainOverlay,
    LaunchApps { nbb: bool, paceman: bool },
    Custom(String),
    LuaCallback(u64),
}

/// A step that carries out a hotkey.
pub enum InputStep<S> {
    SwitchMode(String),
    UpdateModeName(String),
    SetModeOverride(S, Option<(S, S)>),
    ClearModeOverride,
    ToggleHotkeyOverride(S, Option<(S, S)>),
    ToggleGui,
    ToggleImageOverlays,
    ToggleWindowOverlays,
    ToggleBorderless,
    ToggleAppVisibility,
    ShowNinjabrain(bool),
    LaunchApps { nbb: bool, paceman: bool },
    SendCallback(u64),
}

/// What a hotkey depends on: the mode in force and the one at the start, where
/// there is an overlay; whether the stronghold panel is shown; and whether
/// scripts can be called.
pub struct HotkeyContext<'a> {
    pub current_mode: Option<(&'a str, &'a str)>,
    pub panel_shown: bool,
    pub scripts: bool,
}

/// The mode that a switch leads to: between the two modes of the hotkey, or,
/// where it has only one, between that and the mode at the start.
pub open spec fn switch_target(
    current: Seq<char>,
    initial: Seq<char>,
    main: Seq<char>,
    secondary: Seq<char>,
) -> Seq<char> {
    if secondary.len() == 0 {
        if current == main {
            initial
        } else {
            main
        }
    } else if current == secondary {
        main
    } else {
        secondary
    }
}

/// The step that sets the sensitivity of a mode.
pub open spec fn override_step<S>(m: ModeSensitivity<S>) -> InputStep<S> {
    match mode_step(m) {
        HostStep::SetSensitivity(s, separate) => InputStep::SetModeOverride(s, separate),
        _ => InputStep::ClearModeOverride,
    }
}

/// The steps of a switch to a mode.
pub open spec fn switches_to<S>(
    r: Seq<InputStep<S>>,
    mode: Seq<char>,
    modes: Seq<ModeSensitivity<S>>,
) -> bool {
    let named = mode.len() > 0;
    let sensitivity = if named {
        mode_index(modes, mode, 0)
    } else {
        None
    };
    &&& r.len() == 1 + (if named {
        1int
    } else {
        0int
    }) + (if sensitivity is Some {
        1int
    } else {
        0int
    })
    &&& r[0] matches InputStep::SwitchMode(m) && m@ == mode
    &&& named ==> (r[1] matches InputStep::UpdateModeName(m) && m@ == mode)
    &&& sensitivity matches Some(i) ==> r[2] == override_step(modes[i])
}

/// The steps that a hotkey takes.
pub open spec fn dispatches<S>(
    r: Seq<InputStep<S>>,
    a: HotkeyAction<S>,
    c: HotkeyContext,
    modes: Seq<ModeSensitivity<S>>,
) -> bool {
    match a {
        HotkeyAction::SwitchMode { main, secondary } => match c.current_mode {
            None => r.len() == 0,
            Some((current, initial)) => switches_to(
                r,
                switch_target(current@, initial@, main@, secondary@),
                modes,
            ),
        },
        HotkeyAction::ToggleSensitivity { sensitivity, separate, x, y } => r == seq![
            InputStep::ToggleHotkeyOverride(
                sensitivity,
                if separate {
                    Some((x, y))
                } else {
                    None
                },
            ),
        ],
        HotkeyAction::ToggleGui => r == overlay_step(c, InputStep::<S>::ToggleGui),
        HotkeyAction::ToggleImageOverlays => r == overlay_step(c, InputStep::<S>::ToggleImageOverlays),
        HotkeyAction::ToggleWindowOverlays => r == overlay_step(c, InputStep::<S>::ToggleWindowOverlays),
        HotkeyAction::ToggleBorderless => r == seq![InputStep::<S>::ToggleBorderless],
        HotkeyAction::ToggleAppVisibility => r == overlay_step(c, InputStep::<S>::ToggleAppVisibility),
        HotkeyAction::ToggleNinjabrainOverlay => r == seq![
            InputStep::<S>::ShowNinjabrain(!c.panel_shown),
        ],
        HotkeyAction::LaunchApps { nbb, paceman } => r == seq![
            InputStep::<S>::LaunchApps { nbb, paceman },
        ],
        HotkeyAction::Custom(_) => r.len() == 0,
        HotkeyAction::LuaCallback(id) => if c.scripts {
            r == seq![InputStep::<S>::SendCallback(id)]
        } else {
            r.len() == 0
        },
    }
}

/// A step that needs an overlay.
pub open spec fn overlay_step<S>(c: HotkeyContext, s: InputStep<S>) -> Seq<InputStep<S>> {
    if c.current_mode is Some {
        seq![s]
    } else {
        Seq::empty()
    }
}

/// Turns a hotkey into the steps that carry it out.
pub fn dispatch<S: Copy>(
    a: HotkeyAction<S>,
    c: &HotkeyContext,
    modes: &Vec<ModeSensitivity<S>>,
) -> (r: Vec<InputStep<S>>)
    ensures
        dispatches(r@, a, *c, modes@),
{
    let mut r: Vec<InputStep<S>> = Vec::new();
    match a {
        HotkeyAction::SwitchMode { main, secondary } => {
            if let Some((current, initial)) = c.current_mode {
                let target: String = if secondary.as_str().is_empty() {
                    if same_text(current, main.as_str()) {
                        initial.to_owned()
                    } else {
                        main
                    }
                } else if same_text(current, secondary.as_str()) {
                    main
                } else {
                    secondary
                };
                r.push(InputStep::SwitchMode(target.as_str().to_owned()));
                if !target.as_str().is_empty() {
                    r.push(InputStep::UpdateModeName(target.as_str().to_owned()));
                    if let Some(s) = apply_mode_sensitivity(target.as_str(), modes) {
                        match s {
                            HostStep::SetSensitivity(v, separate) => {
                                r.push(InputStep::SetModeOverride(v, separate));
                            },
                            _ => {
                                r.push(InputStep::ClearModeOverride);
                            },
                        }
                    }
                }
            }
        },
        HotkeyAction::ToggleSensitivity { sensitivity, separate, x, y } => {
            let sep: Option<(S, S)> = if separate {
                Some((x, y))
            } else {
                None
            };
            r.push(InputStep::ToggleHotkeyOverride(sensitivity, sep));
        },
        HotkeyAction::ToggleGui => {
            if c.current_mode.is_some() {
                r.push(InputStep::ToggleGui);
            }
        },
        HotkeyAction::ToggleImageOverlays => {
            if c.current_mode.is_some() {
                r.push(InputStep::ToggleImageOverlays);
            }
        },
        HotkeyAction::ToggleWindowOverlays => {
            if c.current_mode.is_some() {
                r.push(InputStep::ToggleWindowOverlays);
            }
        },
        HotkeyAction::ToggleBorderless => {
            r.push(InputStep::ToggleBorderless);
        },
        HotkeyAction::ToggleAppVisibility => {
            if c.current_mode.is_some() {
                r.push(InputStep::ToggleAppVisibility);
            }
        },
        HotkeyAction::ToggleNinjabrainOverlay => {
            r.push(InputStep::ShowNinjabrain(!c.panel_shown));
        },
        HotkeyAction::LaunchApps { nbb, paceman } => {
            r.push(InputStep::LaunchApps { nbb, paceman });
        },
        HotkeyAction::Custom(_) => {},
        HotkeyAction::LuaCallback(id) => {
            if c.scripts {
                r.push(InputStep::SendCallback(id));
            }
        },
    }
    r
}

/// A hotkey with two modes goes back and forth between them, and one with a
/// single mode between that and the mode at the start.
pub proof fn law_hotkey_toggles(initial: Seq<char>, main: Seq<char>, secondary: Seq<char>)
    ensures
        secondary.len() > 0 ==> switch_target(main, initial, main, secondary) == secondary
            && switch_target(secondary, initial, main, secondary) == main,
        switch_target(initial, initial, main, Seq::empty()) == main,
        switch_target(main, initial, main, Seq::empty()) == initial,
{
}

// ---------------------------------------------------------------------------
// Settings
// ---------------------------------------------------------------------------

/// The version of the settings that are in force.
pub struct ReloadState {
    pub version: u64,
}

impl ReloadState {
    pub fn new() -> (r: ReloadState)
        ensures
            r.version == 0,
    {
        ReloadState { version: 0 }
    }

    /// Whether the settings have to be read again.
    pub fn maybe_reload(&mut self, version: u64) -> (r: bool)
        ensures
            r == (version != old(self).version),
            final(self).version == version,
    {
        let changed = version != self.version;
        self.version = version;
        changed
    }
}

/// The state of the game is known; else hotkeys do not ask for it.
pub fn state_available(status: StateModStatus) -> (r: bool)
    ensures
        r == (status is Hermes || status is StateOutput),
{
    match status {
        StateModStatus::Hermes => true,
        StateModStatus::StateOutput => true,
        _ => false,
    }
}

// ---------------------------------------------------------------------------
// Keys
// ---------------------------------------------------------------------------

/// What the settings do with input: whether they are open, wait for a key, or
/// have a text field in use, and whether a popup is under the cursor.
#[derive(Clone, Copy, Debug, PartialEq, Eq, Structural)]
pub struct GuiState {
    pub visible: bool,
    pub capturing: bool,
    pub wants_keyboard: bool,
    pub popup: bool,
}

/// What becomes of a key before the hotkeys see it.
#[derive(Clone, Copy, Debug, PartialEq, Eq, Structural)]
pub enum KeyPlan {
    /// The settings take it as the key that they wait for.
    Capture,
    /// The hotkeys see `key`; then the settings may.
    GuiHotkeys { key: i32 },
    /// The hotkeys see `key`; then the game may.
    GameHotkeys { key: i32 },
}

/// Whether companion apps are told of a key, and that it goes down.
pub fn forwarded(action: i32) -> (r: Option<bool>)
    ensures
        r == if action == PRESS {
            Some(true)
        } else if action == RELEASE {
            Some(false)
        } else {
            None
        },
{
    if action == PRESS {
        Some(true)
    } else if action == RELEASE {
        Some(false)
    } else {
        None
    }
}

pub open spec fn key_plan(key: i32, remapped: i32, action: i32, gui: GuiState) -> KeyPlan {
    if gui.capturing && action == PRESS && !gui.wants_keyboard {
        KeyPlan::Capture
    } else if gui.visible {
        KeyPlan::GuiHotkeys { key }
    } else {
        KeyPlan::GameHotkeys { key: remapped }
    }
}

/// Decides who gets a key. While the settings are open the hotkeys see the key
/// itself, else the one that it is mapped to.
pub fn handle_key(key: i32, remapped: i32, action: i32, gui: GuiState) -> (r: KeyPlan)
    ensures
        r == key_plan(key, remapped, action, gui),
{
    if gui.capturing && action == PRESS && !gui.wants_keyboard {
        return KeyPlan::Capture;
    }
    if gui.visible {
        return KeyPlan::GuiHotkeys { key };
    }
    KeyPlan::GameHotkeys { key: remapped }
}

/// What becomes of a key after the hotkeys saw it.
#[derive(Clone, Copy, Debug, PartialEq, Eq, Structural)]
pub enum KeyOutcome {
    /// The actions of the hotkeys are carried out.
    RunActions,
    /// The settings are closed.
    CloseGui,
    /// The settings get the key.
    ToGui { pressed: bool },
    /// Nothing more.
    Nothing,
}

/// What follows, and whether the key is kept from the game.
pub open spec fn key_outcome(plan: KeyPlan, consumed: bool, key: i32, action: i32) -> (
    KeyOutcome,
    bool,
) {
    match plan {
        KeyPlan::Capture => (KeyOutcome::Nothing, true),
        KeyPlan::GuiHotkeys { .. } => (
            if consumed {
                KeyOutcome::RunActions
            } else if key == KEY_ESCAPE && action == PRESS {
                KeyOutcome::CloseGui
            } else {
                KeyOutcome::ToGui { pressed: action != RELEASE }
            },
            true,
        ),
        KeyPlan::GameHotkeys { .. } => (KeyOutcome::RunActions, consumed),
    }
}

pub fn after_hotkeys(plan: KeyPlan, consumed: bool, key: i32, action: i32) -> (r: (
    KeyOutcome,
    bool,
))
    ensures
        r == key_outcome(plan, consumed, key, action),
{
    match plan {
        KeyPlan::Capture => (KeyOutcome::Nothing, true),
        KeyPlan::GuiHotkeys { .. } => {
            if consumed {
                (KeyOutcome::RunActions, true)
            } else if key == KEY_ESCAPE && action == PRESS {
                (KeyOutcome::CloseGui, true)
            } else {
                (KeyOutcome::ToGui { pressed: action != RELEASE }, true)
            }
        },
        KeyPlan::GameHotkeys { .. } => (KeyOutcome::RunActions, consumed),
    }
}

/// While the settings are open the game gets no key.
pub proof fn law_open_gui_keeps_keys(
    key: i32,
    remapped: i32,
    action: i32,
    gui: GuiState,
    consumed: bool,
)
    requires
        gui.visible,
    ensures
        key_outcome(key_plan(key, remapped, action, gui), consumed, key, action).1,
{
}

// ---------------------------------------------------------------------------
// Mouse
// ---------------------------------------------------------------------------

/// The key that a mouse button stands for: what it is mapped to, else what is
/// mapped to it.
pub open spec fn button_key(encoded: i32, forward: i32, reverse: i32) -> i32 {
    if forward != encoded {
        forward
    } else {
        reverse
    }
}

pub fn remapped_button(encoded: i32, forward: i32, reverse: i32) -> (r: i32)
    ensures
        r == button_key(encoded, forward, reverse),
{
    if forward == encoded && reverse != encoded {
        reverse
    } else {
        forward
    }
}

/// What the settings are told of a mouse button.
#[derive(Clone, Copy, Debug, PartialEq, Eq, Structural)]
pub enum GuiButton {
    LeftPress,
    LeftRelease,
    /// Only the modifiers.
    LeftOther,
    RightPress,
    RightRelease,
    Nothing,
}

/// What becomes of a mouse button.
#[derive(Clone, Copy, Debug, PartialEq, Eq, Structural)]
pub enum ButtonPlan {
    /// The settings take it as the key that they wait for.
    Capture,
    /// The settings get it.
    Gui(GuiButton),
    /// The hotkeys see `key`.
    Hotkeys { key: i32 },
}

/// What the settings are told.
pub open spec fn gui_button(button: i32, action: i32) -> GuiButton {
    if button == 0 {
        if action == PRESS {
            GuiButton::LeftPress
        } else if action == RELEASE {
            GuiButton::LeftRelease
        } else {
            GuiButton::LeftOther
        }
    } else if button == 1 && action == PRESS {
        GuiButton::RightPress
    } else if button == 1 && action == RELEASE {
        GuiButton::RightRelease
    } else {
        GuiButton::Nothing
    }
}

pub open spec fn button_plan(button: i32, action: i32, key: i32, gui: GuiState) -> ButtonPlan {
    if gui.capturing && action == PRESS && button >= 2 {
        ButtonPlan::Capture
    } else if gui.visible || (button == 0 && gui.popup) {
        ButtonPlan::Gui(gui_button(button, action))
    } else {
        ButtonPlan::Hotkeys { key }
    }
}

fn tell_gui(button: i32, action: i32) -> (r: GuiButton)
    ensures
        r == gui_button(button, action),
{
    if button == 0 {
        if action == PRESS {
            GuiButton::LeftPress
        } else if action == RELEASE {
            GuiButton::LeftRelease
        } else {
            GuiButton::LeftOther
        }
    } else if button == 1 && action == PRESS {
        GuiButton::RightPress
    } else if button == 1 && action == RELEASE {
        GuiButton::RightRelease
    } else {
        GuiButton::Nothing
    }
}

/// Decides who gets a mouse button. `key` is the key that it stands for.
pub fn handle_mouse_button(button: i32, action: i32, key: i32, gui: GuiState) -> (r: ButtonPlan)
    ensures
        r == button_plan(button, action, key, gui),
{
    if gui.capturing && action == PRESS && button >= 2 {
        return ButtonPlan::Capture;
    }
    if gui.visible {
        return ButtonPlan::Gui(tell_gui(button, action));
    }
    if button == 0 && gui.popup {
        return ButtonPlan::Gui(tell_gui(button, action));
    }
    ButtonPlan::Hotkeys { key }
}

/// Whether a mouse button is kept from the game, and which button or key the
/// game gets: the button itself unless it stands for another key.
pub open spec fn button_outcome(
    plan: ButtonPlan,
    consumed: bool,
    button: i32,
    encoded: i32,
) -> (bool, i32) {
    match plan {
        ButtonPlan::Capture => (true, encoded),
        ButtonPlan::Gui(_) => (true, encoded),
        ButtonPlan::Hotkeys { key } => if consumed {
            (true, encoded)
        } else if key != encoded {
            (false, key)
        } else {
            (false, button)
        },
    }
}

pub fn after_button(plan: ButtonPlan, consumed: bool, button: i32, encoded: i32) -> (r: (bool, i32))
    ensures
        r == button_outcome(plan, consumed, button, encoded),
{
    match plan {
        ButtonPlan::Capture => (true, encoded),
        ButtonPlan::Gui(_) => (true, encoded),
        ButtonPlan::Hotkeys { key } => {
            if consumed {
                (true, encoded)
            } else if key != encoded {
                (false, key)
            } else {
                (false, button)
            }
        },
    }
}

/// While the settings are open the game gets no mouse button, and a popup takes
/// no button but the left.
pub proof fn law_open_gui_keeps_buttons(
    button: i32,
    action: i32,
    key: i32,
    encoded: i32,
    gui: GuiState,
    consumed: bool,
)
    ensures
        gui.visible ==> button_outcome(
            button_plan(button, action, key, gui),
            consumed,
            button,
            encoded,
        ).0,
        !gui.visible && !gui.capturing && button != 0 ==> button_plan(button, action, key, gui)
            is Hotkeys,
{
}

/// What becomes of a cursor position.
#[derive(Clone, Copy, Debug, PartialEq, Eq, Structural)]
pub enum CursorPlan {
    /// The game does not see it.
    Drop,
    /// It is scaled by the sensitivity.
    Scale,
    /// It is moved from the screen to the game.
    ToGame,
}

/// Decides what becomes of a cursor position, and whether the tracking of the
/// cursor begins anew.
pub fn handle_cursor_pos(recaptured: bool, gui_visible: bool, captured: bool) -> (r: (
    bool,
    CursorPlan,
))
    ensures
        r == (
            recaptured,
            if gui_visible {
                CursorPlan::Drop
            } else if captured {
                CursorPlan::Scale
            } else {
                CursorPlan::ToGame
            },
        ),
{
    if gui_visible {
        (recaptured, CursorPlan::Drop)
    } else if captured {
        (recaptured, CursorPlan::Scale)
    } else {
        (recaptured, CursorPlan::ToGame)
    }
}

/// Whether the settings get a turn of the wheel, and the game does not.
pub fn handle_scroll(gui_visible: bool) -> (r: bool)
    ensures
        r == gui_visible,
{
    gui_visible
}

// ---------------------------------------------------------------------------
// Laws
// ---------------------------------------------------------------------------

/// A hotkey for two modes goes to the second one from anywhere else, and back to
/// the first from there. One for a single mode goes there from anywhere else, and
/// from there to the mode that the game starts in.
pub proof fn law_hotkey_targets(
    current: Seq<char>,
    initial: Seq<char>,
    main: Seq<char>,
    secondary: Seq<char>,
)
    ensures
        secondary.len() > 0 && current != secondary ==> switch_target(
            current,
            initial,
            main,
            secondary,
        ) == secondary,
        secondary.len() > 0 && current == secondary ==> switch_target(
            current,
            initial,
            main,
            secondary,
        ) == main,
        secondary.len() == 0 && current != main ==> switch_target(
            current,
            initial,
            main,
            secondary,
        ) == main,
        secondary.len() == 0 && current == main ==> switch_target(
            current,
            initial,
            main,
            secondary,
        ) == initial,
{
}

/// What a hotkey for modes does: the overlay switches, the scripts are told the
/// same name, and the mouse gets the sensitivity of the first mode of that name,
/// or its own again where the mode has none. Without an overlay nothing happens.
pub proof fn law_hotkey_switches<S>(
    r: Seq<InputStep<S>>,
    main: String,
    secondary: String,
    c: HotkeyContext,
    modes: Seq<ModeSensitivity<S>>,
    i: int,
)
    requires
        dispatches(r, HotkeyAction::SwitchMode { main, secondary }, c, modes),
    ensures
        c.current_mode is None ==> r.len() == 0,
        c.current_mode matches Some((current, initial)) ==> secondary@.len() > 0 && current@
            != secondary@ ==> {
            &&& r[0] matches InputStep::SwitchMode(m) && m@ == secondary@
            &&& r[1] matches InputStep::UpdateModeName(m) && m@ == secondary@
            &&& (forall|k: int| 0 <= k < modes.len() ==> (#[trigger] modes[k]).id@ != secondary@)
                ==> r.len() == 2
            &&& 0 <= i < modes.len() && modes[i].id@ == secondary@ && (forall|k: int|
                0 <= k < i ==> (#[trigger] modes[k]).id@ != secondary@) ==> {
                &&& r.len() == 3
                &&& !modes[i].override_enabled ==> r[2] is ClearModeOverride
                &&& modes[i].override_enabled && !modes[i].separate ==> r[2]
                    == InputStep::SetModeOverride(modes[i].sensitivity, None)
                &&& modes[i].override_enabled && modes[i].separate ==> r[2]
                    == InputStep::SetModeOverride(
                    modes[i].sensitivity,
                    Some((modes[i].x, modes[i].y)),
                )
            }
        },
        c.current_mode matches Some((current, initial)) ==> secondary@.len() == 0 && current@
            == main@ && initial@.len() > 0 ==> (r[0] matches InputStep::SwitchMode(m) && m@
            == initial@) && (r[1] matches InputStep::UpdateModeName(m) && m@ == initial@),
        c.current_mode matches Some((current, initial)) ==> secondary@.len() == 0 && current@
            != main@ && main@.len() > 0 ==> (r[0] matches InputStep::SwitchMode(m) && m@ == main@)
            && (r[1] matches InputStep::UpdateModeName(m) && m@ == main@),
{
    crate::swap_hook::law_first_mode_of_a_name(modes, secondary@, i);
}

/// What the other hotkeys do: each toggles what it is for, the panel of the bot
/// is shown where it was hidden and the other way round, and what belongs to the
/// overlay happens only where there is one.
pub proof fn law_hotkeys_toggle<S>(
    r: Seq<InputStep<S>>,
    a: HotkeyAction<S>,
    c: HotkeyContext,
    modes: Seq<ModeSensitivity<S>>,
)
    requires
        dispatches(r, a, c, modes),
    ensures
        a is ToggleNinjabrainOverlay ==> r.len() == 1 && r[0] == InputStep::<S>::ShowNinjabrain(
            !c.panel_shown,
        ),
        a is ToggleBorderless ==> r.len() == 1 && r[0] is ToggleBorderless,
        c.current_mode is Some && a is ToggleGui ==> r.len() == 1 && r[0] is ToggleGui,
        c.current_mode is Some && a is ToggleImageOverlays ==> r.len() == 1
            && r[0] is ToggleImageOverlays,
        c.current_mode is Some && a is ToggleWindowOverlays ==> r.len() == 1
            && r[0] is ToggleWindowOverlays,
        c.current_mode is Some && a is ToggleAppVisibility ==> r.len() == 1
            && r[0] is ToggleAppVisibility,
        c.current_mode is None && (a is ToggleGui || a is ToggleImageOverlays
            || a is ToggleWindowOverlays || a is ToggleAppVisibility) ==> r.len() == 0,
        a matches HotkeyAction::LaunchApps { nbb, paceman } ==> r == seq![
            InputStep::<S>::LaunchApps { nbb, paceman },
        ],
        a matches HotkeyAction::LuaCallback(id) ==> c.scripts ==> r == seq![
            InputStep::<S>::SendCallback(id),
        ],
        a is LuaCallback && !c.scripts ==> r.len() == 0,
        a is Custom ==> r.len() == 0,
        a matches HotkeyAction::ToggleSensitivity { sensitivity, separate, x, y } ==> r.len() == 1
            && (separate ==> r[0] == InputStep::ToggleHotkeyOverride(sensitivity, Some((x, y))))
            && (!separate ==> r[0] == InputStep::ToggleHotkeyOverride(
            sensitivity,
            None::<(S, S)>,
        )),
{
}

/// With the settings closed a key goes to the hotkeys as it is remapped, and to
/// the game unless a hotkey took it. With them open the hotkeys see the key
/// itself; then escape closes them, and any other key is theirs.
pub proof fn law_keys_go_where_they_belong(
    key: i32,
    remapped: i32,
    action: i32,
    gui: GuiState,
    consumed: bool,
)
    requires
        !gui.capturing,
    ensures
        ({
            let plan = key_plan(key, remapped, action, gui);
            let (outcome, swallowed) = key_outcome(plan, consumed, key, action);
            &&& !gui.visible ==> plan == (KeyPlan::GameHotkeys { key: remapped })
                && outcome is RunActions && swallowed == consumed
            &&& gui.visible ==> plan == (KeyPlan::GuiHotkeys { key }) && swallowed
            &&& gui.visible && consumed ==> outcome is RunActions
            &&& gui.visible && !consumed && key == 256 && action == 1 ==> outcome is CloseGui
            &&& gui.visible && !consumed && key != 256 ==> outcome == (KeyOutcome::ToGui {
                pressed: action != 0,
            })
            &&& gui.visible && !consumed && action == 0 ==> outcome == (KeyOutcome::ToGui {
                pressed: false,
            })
        }),
{
}

/// While the settings wait for a key, a press is theirs and nobody else sees it,
/// unless they want it as text; a release is no key to wait for.
pub proof fn law_captured_keys(
    key: i32,
    remapped: i32,
    gui: GuiState,
    consumed: bool,
    action: i32,
)
    requires
        gui.capturing,
    ensures
        !gui.wants_keyboard ==> key_plan(key, remapped, 1, gui) is Capture && key_outcome(
            key_plan(key, remapped, 1, gui),
            consumed,
            key,
            1,
        ) == (KeyOutcome::Nothing, true),
        gui.wants_keyboard || action != 1 ==> !(key_plan(key, remapped, action, gui) is Capture),
{
}

/// A mouse button goes to the settings where they are open, the left one also to
/// a menu that is; else to the hotkeys, and to the game as the button it is
/// remapped to, or as it is, unless a hotkey took it. The settings wait only for
/// the further buttons.
pub proof fn law_buttons_go_where_they_belong(
    button: i32,
    action: i32,
    key: i32,
    encoded: i32,
    gui: GuiState,
    consumed: bool,
)
    ensures
        ({
            let plan = button_plan(button, action, key, gui);
            let (swallowed, passed) = button_outcome(plan, consumed, button, encoded);
            &&& gui.capturing && action == 1 && button >= 2 ==> plan is Capture && swallowed
            &&& button < 2 ==> !(plan is Capture)
            &&& !gui.capturing && gui.visible ==> plan is Gui && swallowed
            &&& button == 0 && gui.popup ==> plan is Gui && swallowed
            &&& !gui.capturing && !gui.visible && !gui.popup ==> plan == (ButtonPlan::Hotkeys {
                key,
            }) && swallowed == consumed
            &&& !swallowed && key == encoded ==> passed == button
            &&& !swallowed && key != encoded ==> passed == key
        }),
        ({
            let left = button_plan(0, action, key, GuiState { visible: true, ..gui });
            let right = button_plan(1, action, key, GuiState { visible: true, ..gui });
            &&& action == 1 ==> left == ButtonPlan::Gui(GuiButton::LeftPress) && right
                == ButtonPlan::Gui(GuiButton::RightPress)
            &&& action == 0 ==> left == ButtonPlan::Gui(GuiButton::LeftRelease) && right
                == ButtonPlan::Gui(GuiButton::RightRelease)
        }),
{
}

/// A button that is remapped counts as what it is remapped to; one that is not
/// counts as what is remapped to it.
pub proof fn law_remapped_buttons(encoded: i32, forward: i32, reverse: i32)
    ensures
        forward == encoded ==> button_key(encoded, forward, reverse) == reverse,
        forward != encoded ==> button_key(encoded, forward, reverse) == forward,
        button_key(encoded, encoded, encoded) == encoded,
{
}

/// The pointer and the wheel are kept from the game while the settings are open;
/// else a grabbed pointer is scaled and a free one is moved to the game's picture.
pub proof fn law_pointer_goes_where_it_belongs(
    recaptured: bool,
    gui_visible: bool,
    captured: bool,
    r: (bool, CursorPlan),
    wheel: bool,
)
    requires
        call_ensures(handle_cursor_pos, (recaptured, gui_visible, captured), r),
        call_ensures(handle_scroll, (gui_visible,), wheel),
    ensures
        r.0 == recaptured,
        gui_visible <==> r.1 is Drop,
        !gui_visible && captured ==> r.1 is Scale,
        !gui_visible && !captured ==> r.1 is ToGame,
        wheel == gui_visible,
{
}

/// A press and a release are passed on, a repeat is not.
pub proof fn law_repeats_are_dropped(action: i32, r: Option<bool>)
    requires
        call_ensures(forwarded, (action,), r),
    ensures
        action == 1 ==> r == Some(true),
        action == 0 ==> r == Some(false),
        action == 2 ==> r is None,
{
}

} // verus!
