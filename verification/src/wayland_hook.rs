//! The requests that the game sends to a Wayland compositor: which objects are
//! remembered, and what is sent in addition.

use crate::text::same_text;
use vstd::prelude::*;
use vstd::string::*;

verus! {

/// Locks the pointer; the request of the same number makes a toplevel.
pub const LOCK_POINTER: u32 = 1;

pub const SET_CURSOR_POSITION_HINT: u32 = 1;

/// Destroys a locked pointer or a toplevel.
pub const DESTROY: u32 = 0;

pub const SET_FULLSCREEN: u32 = 11;

pub const UNSET_FULLSCREEN: u32 = 12;

/// The game's locked pointer and its toplevel; 0 stands for none.
#[derive(Clone, Copy, Debug, PartialEq, Eq, Structural)]
pub struct WaylandObjects {
    pub locked: u64,
    pub toplevel: u64,
}

/// The objects before a request is passed on: what it destroys is forgotten.
pub open spec fn after_request(w: WaylandObjects, proxy: u64, opcode: u32) -> WaylandObjects {
    WaylandObjects {
        locked: if proxy == w.locked && opcode == DESTROY {
            0
        } else {
            w.locked
        },
        toplevel: if proxy == w.toplevel && opcode == DESTROY {
            0
        } else {
            w.toplevel
        },
    }
}

/// A request makes an object that may have to be remembered.
pub open spec fn makes_object(opcode: u32, constructs: bool, made: u64) -> bool {
    opcode == LOCK_POINTER && constructs && made != 0
}

/// The objects after a request on an object of a class made another.
pub open spec fn after_reply(
    w: WaylandObjects,
    opcode: u32,
    constructs: bool,
    made: u64,
    class: Seq<char>,
) -> WaylandObjects {
    if !makes_object(opcode, constructs, made) {
        w
    } else if class == "zwp_pointer_constraints_v1"@ {
        WaylandObjects { locked: made, ..w }
    } else if class == "xdg_surface"@ {
        WaylandObjects { toplevel: made, ..w }
    } else {
        w
    }
}

impl WaylandObjects {
    pub fn new() -> (r: WaylandObjects)
        ensures
            r == (WaylandObjects { locked: 0, toplevel: 0 }),
    {
        WaylandObjects { locked: 0, toplevel: 0 }
    }

    /// Notes a request before it is passed on.
    pub fn request(&mut self, proxy: u64, opcode: u32)
        ensures
            *final(self) == after_request(*old(self), proxy, opcode),
    {
        if proxy == self.locked && opcode == DESTROY {
            self.locked = 0;
        }
        if proxy == self.toplevel && opcode == DESTROY {
            self.toplevel = 0;
        }
    }

    /// Whether the class of the object that a request was sent to matters.
    pub fn needs_class(&self, opcode: u32, constructs: bool, made: u64) -> (r: bool)
        ensures
            r == makes_object(opcode, constructs, made),
    {
        opcode == LOCK_POINTER && constructs && made != 0
    }

    /// Notes the object that a request made. The result tells whether it is a
    /// locked pointer that is to be given the middle of the window.
    pub fn reply(&mut self, opcode: u32, constructs: bool, made: u64, class: &str) -> (r: bool)
        ensures
            *final(self) == after_reply(*old(self), opcode, constructs, made, class@),
            r == (makes_object(opcode, constructs, made) && class@
                == "zwp_pointer_constraints_v1"@),
    {
        if !(opcode == LOCK_POINTER && constructs && made != 0) {
            return false;
        }
        if same_text(class, "zwp_pointer_constraints_v1") {
            self.locked = made;
            return true;
        }
        if same_text(class, "xdg_surface") {
            self.toplevel = made;
        }
        false
    }

    /// The object and the request that make the game's window fill the screen,
    /// or not; `None` where no toplevel is known.
    pub fn set_fullscreen(&self, on: bool) -> (r: Option<(u64, u32)>)
        ensures
            r == if self.toplevel == 0 {
                None
            } else {
                Some(
                    (
                        self.toplevel,
                        if on {
                            SET_FULLSCREEN
                        } else {
                            UNSET_FULLSCREEN
                        },
                    ),
                )
            },
    {
        if self.toplevel == 0 {
            None
        } else if on {
            Some((self.toplevel, SET_FULLSCREEN))
        } else {
            Some((self.toplevel, UNSET_FULLSCREEN))
        }
    }
}

/// A destroyed object is never used again: no request can go to it.
pub proof fn law_destroyed_objects_are_forgotten(w: WaylandObjects, proxy: u64)
    requires
        proxy != 0,
    ensures
        after_request(w, proxy, DESTROY).locked != proxy,
        after_request(w, proxy, DESTROY).toplevel != proxy,
{
}

/// Half of a length in 256ths, as far as it fits.
pub open spec fn middle(length: i32) -> int {
    if length * 128 > i32::MAX {
        i32::MAX as int
    } else if length * 128 < i32::MIN {
        i32::MIN as int
    } else {
        length * 128
    }
}

fn fixed_middle(length: i32) -> (r: i32)
    ensures
        r as int == middle(length),
{
    let n: i64 = length as i64 * 128;
    if n > i32::MAX as i64 {
        i32::MAX
    } else if n < i32::MIN as i64 {
        i32::MIN
    } else {
        n as i32
    }
}

/// The arguments of the request that puts the cursor into the middle of a
/// window: each a number of 256ths in the low half.
pub fn center_hint(width: i32, height: i32) -> (r: (u64, u64))
    ensures
        r == (middle(width) as i32 as u32 as u64, middle(height) as i32 as u32 as u64),
{
    let cx: i32 = fixed_middle(width);
    let cy: i32 = fixed_middle(height);
    (cx as u32 as u64, cy as u32 as u64)
}

/// The hint lies in the middle: twice it is the whole length in 256ths, for every
/// length up to 16 million points.
pub proof fn law_hint_is_the_middle(n: i32)
    requires
        0 <= n <= 16_000_000,
    ensures
        2 * middle(n) == n * 256,
{
}

/// The pointer lock and the window are remembered when they are made, by a request
/// that makes an object of their kind; other replies change nothing.
pub proof fn law_objects_are_remembered(w: WaylandObjects, made: u64, opcode: u32, class: Seq<char>)
    requires
        made != 0,
    ensures
        after_reply(w, 1, true, made, "zwp_pointer_constraints_v1"@) == (WaylandObjects {
            locked: made,
            toplevel: w.toplevel,
        }),
        after_reply(w, 1, true, made, "xdg_surface"@) == (WaylandObjects {
            locked: w.locked,
            toplevel: made,
        }),
        class != "zwp_pointer_constraints_v1"@ && class != "xdg_surface"@ ==> after_reply(
            w,
            1,
            true,
            made,
            class,
        ) == w,
        after_reply(w, opcode, false, made, class) == w,
        after_reply(w, opcode, true, 0, class) == w,
        opcode != 1 ==> after_reply(w, opcode, true, made, class) == w,
{
    reveal_strlit("zwp_pointer_constraints_v1");
    reveal_strlit("xdg_surface");
    assert("zwp_pointer_constraints_v1"@.len() == 26 && "xdg_surface"@.len() == 11);
}

/// Only destroying an object forgets it, and only that one.
pub proof fn law_other_requests_forget_nothing(w: WaylandObjects, proxy: u64, opcode: u32)
    ensures
        opcode != 0 ==> after_request(w, proxy, opcode) == w,
        proxy != w.locked ==> after_request(w, proxy, opcode).locked == w.locked,
        proxy != w.toplevel ==> after_request(w, proxy, opcode).toplevel == w.toplevel,
        after_request(w, w.toplevel, 0).toplevel == 0,
        after_request(w, w.locked, 0).locked == 0,
{
}

/// Going to and leaving full screen are asked of the window that is known.
pub proof fn law_fullscreen_requests(w: &WaylandObjects, on: bool, r: Option<(u64, u32)>)
    requires
        call_ensures(WaylandObjects::set_fullscreen, (w, on), r),
    ensures
        w.toplevel == 0 ==> r is None,
        w.toplevel != 0 && on ==> r == Some((w.toplevel, 11u32)),
        w.toplevel != 0 && !on ==> r == Some((w.toplevel, 12u32)),
{
}

} // verus!
