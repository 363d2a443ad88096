//! Companion apps on the private X display: the keys that are passed to them,
//! the search for their windows, and the steps from a found window to a picture
//! of it.

use crate::raster::copy_bytes;
use std::collections::{HashMap, HashSet};
use vstd::prelude::*;

verus! {

use vstd::std_specs::iter::IteratorSpec;

broadcast use vstd::std_specs::hash::group_hash_axioms;

/// Milliseconds between two captures.
pub const CAPTURE_INTERVAL_MS: u64 = 100;

/// Frames that a found window is left alone.
pub const STABILIZATION_FRAMES: u64 = 120;

/// After so many failed searches a window is looked for only now and then.
pub const SEARCH_FAIL_LIMIT: u32 = 500;

/// How often a window is looked for then, in frames.
pub const SEARCH_RETRY_FRAMES: u64 = 60;

// ---------------------------------------------------------------------------
// Keys
// ---------------------------------------------------------------------------

/// An X keycode is the kernel's scancode plus this.
pub const EVDEV_X_KEYCODE_OFFSET: i32 = 8;

/// Key events that wait to be passed on: the X keycode, and whether the key
/// went down.
pub struct AppKeyQueue {
    pub events: Vec<(u8, bool)>,
}

impl AppKeyQueue {
    pub fn new() -> (r: AppKeyQueue)
        ensures
            r.events@.len() == 0,
    {
        AppKeyQueue { events: Vec::new() }
    }
}

/// A scancode that has an X keycode.
pub open spec fn has_keycode(scancode: int) -> bool {
    0 < scancode && scancode + EVDEV_X_KEYCODE_OFFSET <= 255
}

/// Queues a key event for the companion apps; a key without an X keycode is
/// dropped.
pub fn push_app_key(q: &mut AppKeyQueue, key: i32, scancode: i32, mods: i32, pressed: bool)
    ensures
        final(q).events@ == if has_keycode(scancode as int) {
            old(q).events@.push(((scancode + EVDEV_X_KEYCODE_OFFSET) as u8, pressed))
        } else {
            old(q).events@
        },
{
    if scancode <= 0 || scancode > 255 - EVDEV_X_KEYCODE_OFFSET {
        return;
    }
    q.events.push(((scancode + EVDEV_X_KEYCODE_OFFSET) as u8, pressed));
}

/// The X event of a key event: its type, 2 for a press and 3 for a release, and
/// the keycode.
pub open spec fn x_event(e: (u8, bool)) -> (u8, u8) {
    (
        if e.1 {
            2u8
        } else {
            3u8
        },
        e.0,
    )
}

/// Empties the queue. The result is the X events to inject, in order; none
/// where no app runs.
pub fn forward_pending_keys(q: &mut AppKeyQueue, apps_running: bool) -> (r: Vec<(u8, u8)>)
    ensures
        final(q).events@.len() == 0,
        r@ == if apps_running {
            old(q).events@.map_values(|e: (u8, bool)| x_event(e))
        } else {
            Seq::empty()
        },
{
    let mut events: Vec<(u8, bool)> = Vec::new();
    core::mem::swap(&mut events, &mut q.events);
    let mut out: Vec<(u8, u8)> = Vec::new();
    if !apps_running {
        return out;
    }
    let mut i: usize = 0;
    while i < events.len()
        invariant
            i <= events@.len(),
            out@ == events@.take(i as int).map_values(|e: (u8, bool)| x_event(e)),
        decreases events.len() - i,
    {
        let e = events[i];
        let kind: u8 = if e.1 {
            2
        } else {
            3
        };
        out.push((kind, e.0));
        i += 1;
        assert(events@.take(i as int) == events@.take(i - 1).push(events@[i - 1]));
    }
    assert(events@.take(i as int) == events@);
    out
}

// ---------------------------------------------------------------------------
// Pixels
// ---------------------------------------------------------------------------

/// Byte `i` of a picture whose red and blue are exchanged; without an alpha
/// channel the picture is opaque.
pub open spec fn exchanged_byte(data: Seq<u8>, depth: u8, i: int) -> u8 {
    if i % 4 == 0 {
        data[i + 2]
    } else if i % 4 == 1 {
        data[i]
    } else if i % 4 == 2 {
        data[i - 2]
    } else if depth >= 32 {
        data[i]
    } else {
        255
    }
}

/// A picture with blue first as one with red first; what is left of a pixel at
/// the end is dropped.
pub open spec fn exchanged(data: Seq<u8>, depth: u8) -> Seq<u8> {
    Seq::new((data.len() / 4 * 4) as nat, |i: int| exchanged_byte(data, depth, i))
}

pub fn bgra_to_rgba(data: &[u8], depth: u8) -> (r: Vec<u8>)
    ensures
        r@ == exchanged(data@, depth),
{
    let mut out: Vec<u8> = Vec::new();
    let mut i: usize = 0;
    while data.len() - i >= 4
        invariant
            i <= data@.len(),
            i % 4 == 0,
            out@.len() == i,
            forall|k: int| 0 <= k < i ==> #[trigger] out@[k] == exchanged_byte(data@, depth, k),
        decreases data.len() - i,
    {
        out.push(data[i + 2]);
        out.push(data[i + 1]);
        out.push(data[i]);
        let alpha: u8 = if depth >= 32 {
            data[i + 3]
        } else {
            255
        };
        out.push(alpha);
        i += 4;
    }
    assert(i == data@.len() / 4 * 4);
    assert(out@ =~= exchanged(data@, depth));
    out
}

/// Exchanging twice gives a picture with an alpha channel back.
pub proof fn law_exchange_twice(data: Seq<u8>, depth: u8)
    requires
        depth >= 32,
        data.len() % 4 == 0,
    ensures
        exchanged(exchanged(data, depth), depth) == data,
{
    assert(exchanged(exchanged(data, depth), depth) =~= data);
}

// ---------------------------------------------------------------------------
// Windows
// ---------------------------------------------------------------------------

/// A window with what the X server tells of it: the area of one that is drawn
/// to, the process that it names, and the windows inside it.
pub struct WindowNode {
    pub id: u32,
    pub area: Option<u32>,
    pub pid: Option<u32>,
    pub children: Vec<WindowNode>,
}

/// The number ranges of the clients of process `pid`.
pub open spec fn bases_of(ids: Seq<(Option<u32>, u32)>, pid: u32) -> Seq<u32>
    decreases ids.len(),
{
    if ids.len() == 0 {
        Seq::empty()
    } else {
        let rest = bases_of(ids.drop_last(), pid);
        if ids.last().0 == Some(pid) {
            rest.push(ids.last().1)
        } else {
            rest
        }
    }
}

/// The number ranges of the clients of process `pid`, from the process and the
/// range of every client.
pub fn matching_bases(ids: &Vec<(Option<u32>, u32)>, pid: u32) -> (r: Vec<u32>)
    ensures
        r@ == bases_of(ids@, pid),
{
    let mut out: Vec<u32> = Vec::new();
    let mut i: usize = 0;
    assert(ids@.take(0) =~= Seq::<(Option<u32>, u32)>::empty());
    while i < ids.len()
        invariant
            i <= ids@.len(),
            out@ == bases_of(ids@.take(i as int), pid),
        decreases ids.len() - i,
    {
        assert(ids@.take(i + 1).drop_last() == ids@.take(i as int));
        if let Some(p) = ids[i].0 {
            if p == pid {
                out.push(ids[i].1);
            }
        }
        i += 1;
    }
    assert(ids@.take(i as int) == ids@);
    out
}

/// A window belongs to one of the clients.
pub open spec fn belongs(id: u32, bases: Seq<u32>, id_mask: u32) -> bool {
    bases.contains(id & !id_mask)
}

fn is_in(v: &Vec<u32>, x: u32) -> (r: bool)
    ensures
        r == v@.contains(x),
{
    let mut i: usize = 0;
    while i < v.len()
        invariant
            i <= v@.len(),
            forall|k: int| 0 <= k < i ==> v@[k] != x,
        decreases v.len() - i,
    {
        if v[i] == x {
            assert(v@[i as int] == x);
            return true;
        }
        i += 1;
    }
    false
}

/// The windows of the clients among `n` and the windows inside it, each before
/// those inside it.
pub open spec fn owned_windows(n: WindowNode, bases: Seq<u32>, id_mask: u32) -> Seq<(u32, u32)>
    decreases n, 1int, 0int,
{
    let own: Seq<(u32, u32)> = if belongs(n.id, bases, id_mask) && n.area is Some {
        seq![(n.id, n.area->0)]
    } else {
        Seq::empty()
    };
    own + owned_below(n, bases, id_mask, n.children@.len() as int)
}

/// The same for the first `k` windows inside `n`.
pub open spec fn owned_below(n: WindowNode, bases: Seq<u32>, id_mask: u32, k: int) -> Seq<
    (u32, u32),
>
    decreases n, 0int, k,
{
    if k <= 0 || k > n.children@.len() {
        Seq::empty()
    } else {
        owned_below(n, bases, id_mask, k - 1) + owned_windows(n.children@[k - 1], bases, id_mask)
    }
}

/// Collects the windows of the clients among `n` and the windows inside it.
pub fn collect_matching(n: &WindowNode, bases: &Vec<u32>, id_mask: u32, out: &mut Vec<(u32, u32)>)
    ensures
        final(out)@ == old(out)@ + owned_windows(*n, bases@, id_mask),
    decreases n,
{
    let ghost start = out@;
    if is_in(bases, n.id & !id_mask) {
        if let Some(area) = n.area {
            out.push((n.id, area));
        }
    }
    let ghost own: Seq<(u32, u32)> = if belongs(n.id, bases@, id_mask) && n.area is Some {
        seq![(n.id, n.area->0)]
    } else {
        Seq::empty()
    };
    assert(out@ =~= start + own);
    let mut i: usize = 0;
    while i < n.children.len()
        invariant
            i <= n.children@.len(),
            out@ == start + own + owned_below(*n, bases@, id_mask, i as int),
        decreases n.children.len() - i,
    {
        collect_matching(&n.children[i], bases, id_mask, out);
        i += 1;
        assert(out@ =~= start + own + owned_below(*n, bases@, id_mask, i as int));
    }
    assert(out@ =~= start + owned_windows(*n, bases@, id_mask));
}

/// The windows that name process `pid`, among `n` and those inside it; one that
/// is not drawn to counts as having no area.
pub open spec fn named_windows(n: WindowNode, pid: u32) -> Seq<(u32, u32)>
    decreases n, 1int, 0int,
{
    let own: Seq<(u32, u32)> = if n.pid == Some(pid) {
        seq![
            (
                n.id,
                match n.area {
                    Some(a) => a,
                    None => 0,
                },
            ),
        ]
    } else {
        Seq::empty()
    };
    own + named_below(n, pid, n.children@.len() as int)
}

pub open spec fn named_below(n: WindowNode, pid: u32, k: int) -> Seq<(u32, u32)>
    decreases n, 0int, k,
{
    if k <= 0 || k > n.children@.len() {
        Seq::empty()
    } else {
        named_below(n, pid, k - 1) + named_windows(n.children@[k - 1], pid)
    }
}

/// Collects the windows that name process `pid`.
pub fn find_all_recursive(n: &WindowNode, pid: u32, out: &mut Vec<(u32, u32)>)
    ensures
        final(out)@ == old(out)@ + named_windows(*n, pid),
    decreases n,
{
    let ghost start = out@;
    if let Some(p) = n.pid {
        if p == pid {
            let area: u32 = match n.area {
                Some(a) => a,
                None => 0,
            };
            out.push((n.id, area));
        }
    }
    let ghost own: Seq<(u32, u32)> = if n.pid == Some(pid) {
        seq![
            (
                n.id,
                match n.area {
                    Some(a) => a,
                    None => 0,
                },
            ),
        ]
    } else {
        Seq::empty()
    };
    assert(out@ =~= start + own);
    let mut i: usize = 0;
    while i < n.children.len()
        invariant
            i <= n.children@.len(),
            out@ == start + own + named_below(*n, pid, i as int),
        decreases n.children.len() - i,
    {
        find_all_recursive(&n.children[i], pid, out);
        i += 1;
        assert(out@ =~= start + own + named_below(*n, pid, i as int));
    }
    assert(out@ =~= start + named_windows(*n, pid));
}

/// The windows of the clients that stand directly in the root window.
pub open spec fn top_windows(c: Seq<WindowNode>, bases: Seq<u32>, id_mask: u32) -> Seq<(u32, u32)>
    decreases c.len(),
{
    if c.len() == 0 {
        Seq::empty()
    } else {
        let rest = top_windows(c.drop_last(), bases, id_mask);
        let w = c.last();
        if belongs(w.id, bases, id_mask) && w.area is Some {
            rest.push((w.id, w.area->0))
        } else {
            rest
        }
    }
}

/// `x` at its place in a list that is ordered by area, the largest first:
/// behind all that are not smaller.
pub open spec fn placed(s: Seq<(u32, u32)>, x: (u32, u32)) -> Seq<(u32, u32)> {
    s.insert(place_of(s, x.1, 0), x)
}

pub open spec fn place_of(s: Seq<(u32, u32)>, area: u32, i: int) -> int
    decreases s.len() - i,
{
    if 0 <= i < s.len() && s[i].1 >= area {
        place_of(s, area, i + 1)
    } else {
        i
    }
}

/// Windows by area, the largest first, equal ones in their order.
pub open spec fn by_area(s: Seq<(u32, u32)>) -> Seq<(u32, u32)>
    decreases s.len(),
{
    if s.len() == 0 {
        Seq::empty()
    } else {
        placed(by_area(s.drop_last()), s.last())
    }
}

pub open spec fn window_ids(s: Seq<(u32, u32)>) -> Seq<u32> {
    s.map_values(|w: (u32, u32)| w.0)
}

/// The windows by area, the largest first.
pub fn largest_first(c: &Vec<(u32, u32)>) -> (r: Vec<u32>)
    ensures
        r@ == window_ids(by_area(c@)),
{
    let mut sorted: Vec<(u32, u32)> = Vec::new();
    let mut i: usize = 0;
    assert(c@.take(0) =~= Seq::<(u32, u32)>::empty());
    while i < c.len()
        invariant
            i <= c@.len(),
            sorted@ == by_area(c@.take(i as int)),
        decreases c.len() - i,
    {
        let x = c[i];
        let mut p: usize = 0;
        while p < sorted.len() && sorted[p].1 >= x.1
            invariant
                p <= sorted@.len(),
                place_of(sorted@, x.1, 0) == place_of(sorted@, x.1, p as int),
            decreases sorted.len() - p,
        {
            p += 1;
        }
        sorted.insert(p, x);
        i += 1;
        assert(c@.take(i as int).drop_last() == c@.take(i - 1));
    }
    assert(c@.take(i as int) == c@);
    let mut out: Vec<u32> = Vec::new();
    let mut k: usize = 0;
    while k < sorted.len()
        invariant
            k <= sorted@.len(),
            out@ == window_ids(sorted@.take(k as int)),
        decreases sorted.len() - k,
    {
        out.push(sorted[k].0);
        k += 1;
        assert(sorted@.take(k as int) == sorted@.take(k - 1).push(sorted@[k - 1]));
        assert(window_ids(sorted@.take(k as int)) == window_ids(sorted@.take(k - 1)).push(
            sorted@[k - 1].0,
        ));
    }
    assert(sorted@.take(k as int) == sorted@);
    out
}

/// The windows of process `pid` by the number ranges of its clients: those
/// directly in the root window, else those at any depth.
pub open spec fn client_windows(
    root: WindowNode,
    ids: Seq<(Option<u32>, u32)>,
    id_mask: u32,
    pid: u32,
) -> Seq<u32> {
    let bases = bases_of(ids, pid);
    if bases.len() == 0 {
        Seq::empty()
    } else {
        let top = top_windows(root.children@, bases, id_mask);
        if top.len() > 0 {
            window_ids(by_area(top))
        } else {
            window_ids(by_area(owned_below(root, bases, id_mask, root.children@.len() as int)))
        }
    }
}

pub fn find_all_via_xres(
    root: &WindowNode,
    ids: &Vec<(Option<u32>, u32)>,
    id_mask: u32,
    pid: u32,
) -> (r: Vec<u32>)
    ensures
        r@ == client_windows(*root, ids@, id_mask, pid),
{
    let bases = matching_bases(ids, pid);
    if bases.len() == 0 {
        return Vec::new();
    }
    let mut candidates: Vec<(u32, u32)> = Vec::new();
    let ghost kids = root.children@;
    let mut i: usize = 0;
    assert(kids.take(0) =~= Seq::<WindowNode>::empty());
    while i < root.children.len()
        invariant
            i <= kids.len(),
            kids == root.children@,
            candidates@ == top_windows(kids.take(i as int), bases@, id_mask),
        decreases root.children.len() - i,
    {
        let w = &root.children[i];
        assert(kids.take(i + 1).drop_last() == kids.take(i as int));
        if is_in(&bases, w.id & !id_mask) {
            if let Some(area) = w.area {
                candidates.push((w.id, area));
            }
        }
        i += 1;
    }
    assert(kids.take(i as int) == kids);
    if candidates.len() == 0 {
        let mut k: usize = 0;
        assert(candidates@ =~= owned_below(*root, bases@, id_mask, 0));
        while k < root.children.len()
            invariant
                k <= root.children@.len(),
                candidates@ == owned_below(*root, bases@, id_mask, k as int),
            decreases root.children.len() - k,
        {
            collect_matching(&root.children[k], &bases, id_mask, &mut candidates);
            k += 1;
        }
    }
    largest_first(&candidates)
}

/// The windows of process `pid`, the largest first: by its clients, else by the
/// process that a window names, where names can be read.
pub fn find_all_windows_by_pid(
    root: &WindowNode,
    ids: &Vec<(Option<u32>, u32)>,
    id_mask: u32,
    names_known: bool,
    pid: u32,
) -> (r: Vec<u32>)
    ensures
        r@ == ({
            let c = client_windows(*root, ids@, id_mask, pid);
            if c.len() > 0 {
                c
            } else if names_known {
                window_ids(by_area(named_windows(*root, pid)))
            } else {
                Seq::empty()
            }
        }),
{
    let wins = find_all_via_xres(root, ids, id_mask, pid);
    if wins.len() > 0 {
        return wins;
    }
    if !names_known {
        return Vec::new();
    }
    let mut found: Vec<(u32, u32)> = Vec::new();
    find_all_recursive(root, pid, &mut found);
    assert(found@ =~= named_windows(*root, pid));
    largest_first(&found)
}

proof fn lemma_place(s: Seq<(u32, u32)>, area: u32, i: int)
    requires
        0 <= i <= s.len(),
    ensures
        i <= place_of(s, area, i) <= s.len(),
        forall|j: int| i <= j < place_of(s, area, i) ==> (#[trigger] s[j]).1 >= area,
        place_of(s, area, i) < s.len() ==> s[place_of(s, area, i)].1 < area,
    decreases s.len() - i,
{
    if i < s.len() && s[i].1 >= area {
        lemma_place(s, area, i + 1);
    }
}

/// Ordering by area keeps every window and puts larger ones first.
pub proof fn law_by_area(s: Seq<(u32, u32)>)
    ensures
        by_area(s).to_multiset() == s.to_multiset(),
        forall|i: int, j: int|
            0 <= i < j < by_area(s).len() ==> (#[trigger] by_area(s)[i]).1 >= (#[trigger] by_area(
                s,
            )[j]).1,
    decreases s.len(),
{
    broadcast use vstd::seq_lib::group_to_multiset_ensures;

    if s.len() > 0 {
        let front = by_area(s.drop_last());
        let x = s.last();
        law_by_area(s.drop_last());
        lemma_place(front, x.1, 0);
        let p = place_of(front, x.1, 0);
        let w = by_area(s);
        assert(s =~= s.drop_last().push(x));
        assert(w.to_multiset() =~= front.to_multiset().insert(x));
        assert forall|i: int, j: int| 0 <= i < j < w.len() implies (#[trigger] w[i]).1 >= (
        #[trigger] w[j]).1 by {
            let a = if i < p {
                i
            } else {
                i - 1
            };
            let b = if j < p {
                j
            } else {
                j - 1
            };
            if i == p {
                assert(w[j] == front[b]);
                assert(front[p].1 < x.1);
                if p < b {
                    assert(front[p].1 >= front[b].1);
                }
            } else if j == p {
                assert(w[i] == front[a]);
            } else {
                assert(w[i] == front[a] && w[j] == front[b]);
            }
        }
    }
}

// ---------------------------------------------------------------------------
// From a window to its picture
// ---------------------------------------------------------------------------

/// How far a window is.
#[derive(Clone, Copy, Debug, PartialEq, Eq, Structural)]
pub enum CapturePhase {
    /// It was found in this frame and is left alone for a while.
    Stabilizing { found_at_frame: u64 },
    /// It is captured.
    Offscreen,
}

/// A companion app's window.
pub struct EmbeddedWindow {
    pub window: u32,
    pub phase: CapturePhase,
    pub pixels: Option<Vec<u8>>,
    pub width: u32,
    pub height: u32,
    /// A capture runs for it.
    pub capturing: bool,
    /// The number of the last capture that was taken over.
    pub last_gen: u64,
}

/// What the capture of a window has produced so far.
pub struct BgCapture {
    pub pixels: Option<Vec<u8>>,
    pub width: u32,
    pub height: u32,
    pub gen: u64,
}

/// What is to be done next for an app's window.
pub enum EmbedAction {
    /// Nothing more in this frame.
    Nothing,
    /// Connect to the display, then report.
    Connect,
    /// Look for the app's windows, then report.
    FindWindows,
    /// See whether the window still exists, then report.
    CheckWindow(u32),
    /// Start a capture of the window, then report.
    StartCapture(u32),
    /// Read what the capture has produced, then report.
    ReadCapture,
    /// Show this picture.
    Show { pixels: Vec<u8>, width: u32, height: u32 },
}

/// The companion apps.
pub struct AppCaptureManager {
    pub embedded: HashMap<u32, EmbeddedWindow>,
    pub search_fails: HashMap<u32, u32>,
    pub floated_pids: HashSet<u32>,
    pub frame: u64,
    pub visible: bool,
}

/// The failed searches for an app.
pub open spec fn fails_of(m: Map<u32, u32>, pid: u32) -> u32 {
    if m.contains_key(pid) {
        m[pid]
    } else {
        0
    }
}

/// An app whose window was long not found is looked for in every 60th frame
/// only.
pub open spec fn search_paused(fails: u32, frame: u64) -> bool {
    fails > SEARCH_FAIL_LIMIT && frame % SEARCH_RETRY_FRAMES != 0
}

/// What follows for a window that is captured.
pub open spec fn shown_next(e: EmbeddedWindow, visible: bool) -> EmbedAction {
    if !visible {
        EmbedAction::Nothing
    } else if !e.capturing {
        EmbedAction::StartCapture(e.window)
    } else {
        EmbedAction::ReadCapture
    }
}

/// What follows for a window that is known.
pub open spec fn known_next(e: EmbeddedWindow, frame: u64, visible: bool) -> EmbedAction {
    match e.phase {
        CapturePhase::Stabilizing { found_at_frame } => if frame.wrapping_sub(found_at_frame)
            < STABILIZATION_FRAMES {
            EmbedAction::Nothing
        } else {
            EmbedAction::CheckWindow(e.window)
        },
        CapturePhase::Offscreen => shown_next(e, visible),
    }
}

impl AppCaptureManager {
    pub fn new() -> (r: AppCaptureManager)
        ensures
            r.embedded@ == Map::<u32, EmbeddedWindow>::empty(),
            r.search_fails@ == Map::<u32, u32>::empty(),
            r.floated_pids@ == Set::<u32>::empty(),
            r.frame == 0,
            r.visible,
    {
        AppCaptureManager {
            embedded: HashMap::new(),
            search_fails: HashMap::new(),
            floated_pids: HashSet::new(),
            frame: 0,
            visible: true,
        }
    }

    /// The apps whose windows are known, each once, in no set order.
    pub fn known_pids(&self) -> (r: Vec<u32>)
        ensures
            r@.to_set() == self.embedded@.dom(),
            r@.no_duplicates(),
    {
        let ghost keys = self.embedded.keys().remaining().unref();
        let mut out: Vec<u32> = Vec::new();
        for k in it: self.embedded.keys()
            invariant
                it.seq().unref() == keys,
                it.seq().no_duplicates(),
                keys.to_set() == self.embedded@.dom(),
                out@ == keys.take(it.index() as int),
        {
            out.push(*k);
        }
        assert(keys.take(keys.len() as int) == keys);
        out
    }

    /// Shows or hides the companion apps.
    pub fn toggle_visibility(&mut self)
        ensures
            final(self).visible == !old(self).visible,
            final(self).embedded@ == old(self).embedded@,
            final(self).search_fails@ == old(self).search_fails@,
            final(self).floated_pids@ == old(self).floated_pids@,
            final(self).frame == old(self).frame,
    {
        self.visible = !self.visible;
    }

    /// Whether an app's windows still have to be marked as floating.
    pub fn needs_float_hint(&self, pid: u32) -> (r: bool)
        ensures
            r == !self.floated_pids@.contains(pid),
    {
        !self.floated_pids.contains(&pid)
    }

    /// Notes that an app's windows, `count` of them, were marked as floating; an
    /// app without windows is tried again.
    pub fn set_float_hint(&mut self, pid: u32, count: usize)
        ensures
            final(self).floated_pids@ == if count > 0 {
                old(self).floated_pids@.insert(pid)
            } else {
                old(self).floated_pids@
            },
            final(self).embedded@ == old(self).embedded@,
            final(self).search_fails@ == old(self).search_fails@,
            final(self).frame == old(self).frame,
            final(self).visible == old(self).visible,
    {
        if count > 0 {
            self.floated_pids.insert(pid);
        }
    }

    /// Forgets an app. The result is the window to hide, where it was captured.
    pub fn drop_window(&mut self, pid: u32) -> (r: Option<u32>)
        ensures
            final(self).embedded@ == old(self).embedded@.remove(pid),
            final(self).search_fails@ == old(self).search_fails@.remove(pid),
            final(self).floated_pids@ == old(self).floated_pids@.remove(pid),
            final(self).frame == old(self).frame,
            final(self).visible == old(self).visible,
            r == if old(self).embedded@.contains_key(pid) && old(self).embedded@[pid].phase
                == CapturePhase::Offscreen {
                Some(old(self).embedded@[pid].window)
            } else {
                None
            },
    {
        let gone = self.embedded.remove(&pid);
        self.search_fails.remove(&pid);
        self.floated_pids.remove(&pid);
        match gone {
            Some(e) => match e.phase {
                CapturePhase::Offscreen => Some(e.window),
                CapturePhase::Stabilizing { .. } => None,
            },
            None => None,
        }
    }

    /// Starts a frame for an app.
    pub fn embed(&mut self, pid: u32) -> (r: EmbedAction)
        ensures
            final(self).frame == old(self).frame.wrapping_add(1),
            final(self).embedded@ == old(self).embedded@,
            final(self).search_fails@ == old(self).search_fails@,
            final(self).floated_pids@ == old(self).floated_pids@,
            final(self).visible == old(self).visible,
            r == if search_paused(fails_of(old(self).search_fails@, pid), final(self).frame) {
                EmbedAction::Nothing
            } else {
                EmbedAction::Connect
            },
    {
        self.frame = self.frame.wrapping_add(1);
        let fails: u32 = match self.search_fails.get(&pid) {
            Some(f) => *f,
            None => 0,
        };
        if fails > SEARCH_FAIL_LIMIT && self.frame % SEARCH_RETRY_FRAMES != 0 {
            EmbedAction::Nothing
        } else {
            EmbedAction::Connect
        }
    }

    fn next_for(&self, e: &EmbeddedWindow) -> (r: EmbedAction)
        ensures
            r == known_next(*e, self.frame, self.visible),
    {
        match e.phase {
            CapturePhase::Stabilizing { found_at_frame } => {
                if self.frame.wrapping_sub(found_at_frame) < STABILIZATION_FRAMES {
                    EmbedAction::Nothing
                } else {
                    EmbedAction::CheckWindow(e.window)
                }
            },
            CapturePhase::Offscreen => {
                if !self.visible {
                    EmbedAction::Nothing
                } else if !e.capturing {
                    EmbedAction::StartCapture(e.window)
                } else {
                    EmbedAction::ReadCapture
                }
            },
        }
    }

    /// Reports whether there is a connection to the display.
    pub fn connected(&self, pid: u32, ok: bool) -> (r: EmbedAction)
        ensures
            r == if !ok {
                EmbedAction::Nothing
            } else if !self.embedded@.contains_key(pid) {
                EmbedAction::FindWindows
            } else {
                known_next(self.embedded@[pid], self.frame, self.visible)
            },
    {
        if !ok {
            return EmbedAction::Nothing;
        }
        match self.embedded.get(&pid) {
            Some(e) => self.next_for(e),
            None => EmbedAction::FindWindows,
        }
    }

    /// Reports the windows of an app, the largest first. That one is taken; a
    /// search that found none is counted.
    pub fn found(&mut self, pid: u32, windows: &Vec<u32>) -> (r: EmbedAction)
        ensures
            r is Nothing,
            windows@.len() == 0 ==> {
                let f = fails_of(old(self).search_fails@, pid);
                &&& final(self).embedded@ == old(self).embedded@
                &&& final(self).search_fails@ == old(self).search_fails@.insert(
                    pid,
                    if f < u32::MAX {
                        (f + 1) as u32
                    } else {
                        f
                    },
                )
            },
            windows@.len() > 0 ==> {
                &&& final(self).search_fails@ == old(self).search_fails@.remove(pid)
                &&& exists|e: EmbeddedWindow|
                    {
                        &&& final(self).embedded@ == #[trigger] old(self).embedded@.insert(pid, e)
                        &&& e.window == windows@[0]
                        &&& e.phase == (CapturePhase::Stabilizing {
                            found_at_frame: old(self).frame,
                        })
                        &&& e.pixels is None
                        &&& e.width == 0
                        &&& e.height == 0
                        &&& !e.capturing
                        &&& e.last_gen == 0
                    }
            },
            final(self).floated_pids@ == old(self).floated_pids@,
            final(self).frame == old(self).frame,
            final(self).visible == old(self).visible,
    {
        if windows.len() == 0 {
            let fails: u32 = match self.search_fails.get(&pid) {
                Some(f) => *f,
                None => 0,
            };
            self.search_fails.insert(pid, fails.saturating_add(1));
            return EmbedAction::Nothing;
        }
        self.search_fails.remove(&pid);
        let e = EmbeddedWindow {
            window: windows[0],
            phase: CapturePhase::Stabilizing { found_at_frame: self.frame },
            pixels: None,
            width: 0,
            height: 0,
            capturing: false,
            last_gen: 0,
        };
        let ghost before = self.embedded@;
        self.embedded.insert(pid, e);
        assert(self.embedded@ == before.insert(pid, e));
        EmbedAction::Nothing
    }

    /// Reports whether the window of an app that was left alone long enough
    /// still exists. One that is gone is forgotten, else it is captured.
    pub fn checked(&mut self, pid: u32, alive: bool) -> (r: EmbedAction)
        ensures
            !alive || !old(self).embedded@.contains_key(pid) ==> r is Nothing
                && final(self).embedded@ == old(self).embedded@.remove(pid),
            alive && old(self).embedded@.contains_key(pid) ==> {
                let e = EmbeddedWindow {
                    phase: CapturePhase::Offscreen,
                    ..old(self).embedded@[pid]
                };
                &&& final(self).embedded@ == old(self).embedded@.insert(pid, e)
                &&& r == shown_next(e, old(self).visible)
            },
            final(self).search_fails@ == old(self).search_fails@,
            final(self).floated_pids@ == old(self).floated_pids@,
            final(self).frame == old(self).frame,
            final(self).visible == old(self).visible,
    {
        let ghost before = self.embedded@;
        match self.embedded.remove(&pid) {
            Some(old_e) => {
                if !alive {
                    return EmbedAction::Nothing;
                }
                let mut e = old_e;
                e.phase = CapturePhase::Offscreen;
                let r = self.next_for(&e);
                self.embedded.insert(pid, e);
                assert(self.embedded@ =~= before.insert(pid, e));
                r
            },
            None => EmbedAction::Nothing,
        }
    }

    /// Reports that a capture runs for an app's window.
    pub fn capture_started(&mut self, pid: u32) -> (r: EmbedAction)
        ensures
            old(self).embedded@.contains_key(pid) ==> r is ReadCapture && final(self).embedded@
                == old(self).embedded@.insert(
                pid,
                EmbeddedWindow { capturing: true, ..old(self).embedded@[pid] },
            ),
            !old(self).embedded@.contains_key(pid) ==> r is Nothing && final(self).embedded@
                == old(self).embedded@,
            final(self).search_fails@ == old(self).search_fails@,
            final(self).floated_pids@ == old(self).floated_pids@,
            final(self).frame == old(self).frame,
            final(self).visible == old(self).visible,
    {
        let ghost before = self.embedded@;
        match self.embedded.remove(&pid) {
            Some(old_e) => {
                let mut e = old_e;
                e.capturing = true;
                self.embedded.insert(pid, e);
                assert(self.embedded@ =~= before.insert(pid, e));
                EmbedAction::ReadCapture
            },
            None => {
                assert(self.embedded@ =~= before);
                EmbedAction::Nothing
            },
        }
    }

    /// Reports what a capture has produced. A new picture is taken over; the
    /// last one that was taken over is shown, if it is not empty.
    pub fn captured(&mut self, pid: u32, bg: BgCapture) -> (r: EmbedAction)
        ensures
            !old(self).embedded@.contains_key(pid) ==> r is Nothing && final(self).embedded@
                == old(self).embedded@,
            old(self).embedded@.contains_key(pid) ==> {
                let e = taken_over(old(self).embedded@[pid], bg);
                &&& final(self).embedded@ == old(self).embedded@.insert(pid, e)
                &&& shows(r, e)
            },
            final(self).search_fails@ == old(self).search_fails@,
            final(self).floated_pids@ == old(self).floated_pids@,
            final(self).frame == old(self).frame,
            final(self).visible == old(self).visible,
    {
        let ghost before = self.embedded@;
        match self.embedded.remove(&pid) {
            Some(old_e) => {
                let mut e = old_e;
                if bg.gen != e.last_gen {
                    if let Some(px) = bg.pixels {
                        e.pixels = Some(px);
                        e.width = bg.width;
                        e.height = bg.height;
                        e.last_gen = bg.gen;
                    }
                }
                assert(e == taken_over(before[pid], bg));
                let r = match &e.pixels {
                    Some(px) => {
                        if e.width == 0 || e.height == 0 {
                            EmbedAction::Nothing
                        } else {
                            EmbedAction::Show {
                                pixels: copy_bytes(px),
                                width: e.width,
                                height: e.height,
                            }
                        }
                    },
                    None => EmbedAction::Nothing,
                };
                self.embedded.insert(pid, e);
                assert(self.embedded@ =~= before.insert(pid, e));
                r
            },
            None => {
                assert(self.embedded@ =~= before);
                EmbedAction::Nothing
            },
        }
    }
}

/// A window after a capture was read: a picture with a new number replaces the
/// last.
pub open spec fn taken_over(e: EmbeddedWindow, bg: BgCapture) -> EmbeddedWindow {
    if bg.gen != e.last_gen && bg.pixels is Some {
        EmbeddedWindow {
            pixels: bg.pixels,
            width: bg.width,
            height: bg.height,
            last_gen: bg.gen,
            ..e
        }
    } else {
        e
    }
}

/// The picture of a window is shown, if it has one that is not empty.
pub open spec fn shows(r: EmbedAction, e: EmbeddedWindow) -> bool {
    if e.pixels is Some && e.width != 0 && e.height != 0 {
        r matches EmbedAction::Show { pixels, width, height } && pixels@ == e.pixels->0@ && width
            == e.width && height == e.height
    } else {
        r is Nothing
    }
}

/// The capture after a picture of a window was taken: it is kept under the next
/// number.
pub fn store_capture(bg: &mut BgCapture, data: &[u8], depth: u8, width: u32, height: u32)
    requires
        old(bg).gen < u64::MAX,
    ensures
        final(bg).pixels matches Some(p) && p@ == exchanged(data@, depth),
        final(bg).width == width,
        final(bg).height == height,
        final(bg).gen == old(bg).gen + 1,
{
    bg.pixels = Some(bgra_to_rgba(data, depth));
    bg.width = width;
    bg.height = height;
    bg.gen = bg.gen + 1;
}

/// A window is shown only after it was left alone for its time, whatever is
/// reported meanwhile.
pub proof fn law_window_stabilizes(e: EmbeddedWindow, frame: u64, visible: bool)
    requires
        e.phase matches CapturePhase::Stabilizing { found_at_frame } && frame.wrapping_sub(
            found_at_frame,
        ) < STABILIZATION_FRAMES,
    ensures
        known_next(e, frame, visible) is Nothing,
{
}

/// Hidden apps cost nothing: no capture is started and none is read.
pub proof fn law_hidden_apps_rest(e: EmbeddedWindow, frame: u64)
    requires
        e.phase is Offscreen,
    ensures
        known_next(e, frame, false) is Nothing,
{
}

/// The display counts keys from 8 on: a key of the keyboard has a number there
/// where it is in 1 to 247. A press is told as such and a release as such, each
/// with its key.
pub proof fn law_keys_of_the_display(scancode: int, code: u8)
    ensures
        has_keycode(scancode) <==> 1 <= scancode <= 247,
        x_event((code, true)) == (2u8, code),
        x_event((code, false)) == (3u8, code),
{
}

/// Red and blue change places in each pixel, green stays, and so does the alpha of
/// a window that has one; the others are opaque. What is no whole pixel is left
/// out.
pub proof fn law_colors_change_places(data: Seq<u8>, depth: u8, p: int)
    requires
        0 <= p < data.len() / 4,
    ensures
        exchanged(data, depth).len() == data.len() - data.len() % 4,
        exchanged(data, depth)[4 * p] == data[4 * p + 2],
        exchanged(data, depth)[4 * p + 1] == data[4 * p + 1],
        exchanged(data, depth)[4 * p + 2] == data[4 * p],
        depth >= 32 ==> exchanged(data, depth)[4 * p + 3] == data[4 * p + 3],
        depth < 32 ==> exchanged(data, depth)[4 * p + 3] == 255,
{
}

/// The bases of a process are those that the display has under its number, and no
/// others.
pub proof fn law_bases_of_a_process(ids: Seq<(Option<u32>, u32)>, pid: u32, b: u32)
    ensures
        bases_of(ids, pid).contains(b) <==> ids.contains((Some(pid), b)),
    decreases ids.len(),
{
    if ids.len() > 0 {
        let front = ids.drop_last();
        let rest = bases_of(front, pid);
        law_bases_of_a_process(front, pid, b);
        assert(ids =~= front.push(ids.last()));
        if ids.contains((Some(pid), b)) {
            let i = choose|i: int| 0 <= i < ids.len() && ids[i] == (Some(pid), b);
            if i < front.len() {
                assert(front[i] == (Some(pid), b));
                let k = choose|k: int| 0 <= k < rest.len() && rest[k] == b;
                assert(bases_of(ids, pid)[k] == b);
            } else {
                assert(bases_of(ids, pid)[rest.len() as int] == b);
            }
        }
        if bases_of(ids, pid).contains(b) {
            let k = choose|k: int| 0 <= k < bases_of(ids, pid).len() && bases_of(ids, pid)[k] == b;
            if k < rest.len() {
                assert(rest[k] == b);
                let i = choose|i: int| 0 <= i < front.len() && front[i] == (Some(pid), b);
                assert(ids[i] == (Some(pid), b));
            } else {
                assert(ids[ids.len() - 1] == (Some(pid), b));
            }
        }
    }
}

/// A window belongs to the client whose base its number has, whatever number it has
/// among the client's own.
pub proof fn law_windows_of_a_base(base: u32, low: u32, other: u32, id_mask: u32)
    requires
        base & id_mask == 0,
        low & !id_mask == 0,
    ensures
        belongs(base | low, seq![base], id_mask),
        other != base ==> !belongs(base | low, seq![other], id_mask),
{
    assert((base | low) & !id_mask == base) by (bit_vector)
        requires
            base & id_mask == 0,
            low & !id_mask == 0,
    ;
    assert(seq![base][0] == base);
}

/// The windows of some clients are found in the whole tree below a window: its own,
/// where it has an area, and those of each child; and only theirs are.
pub proof fn law_owned_windows(n: WindowNode, bases: Seq<u32>, id_mask: u32, k: int, w: (u32, u32))
    ensures
        belongs(n.id, bases, id_mask) && n.area is Some ==> owned_windows(
            n,
            bases,
            id_mask,
        ).contains((n.id, n.area->0)),
        0 <= k < n.children@.len() && owned_windows(n.children@[k], bases, id_mask).contains(w)
            ==> owned_windows(n, bases, id_mask).contains(w),
        owned_windows(n, bases, id_mask).contains(w) ==> belongs(w.0, bases, id_mask),
{
    let all = owned_windows(n, bases, id_mask);
    let own: Seq<(u32, u32)> = if belongs(n.id, bases, id_mask) && n.area is Some {
        seq![(n.id, n.area->0)]
    } else {
        Seq::empty()
    };
    let below = owned_below(n, bases, id_mask, n.children@.len() as int);
    assert(all == own + below);
    if belongs(n.id, bases, id_mask) && n.area is Some {
        assert(all[0] == (n.id, n.area->0));
    }
    if 0 <= k < n.children@.len() && owned_windows(n.children@[k], bases, id_mask).contains(w) {
        lemma_owned_below(n, bases, id_mask, n.children@.len() as int, k, w);
        let i = choose|i: int| 0 <= i < below.len() && below[i] == w;
        assert(all[own.len() + i] == w);
    }
    lemma_owned_belong(n, bases, id_mask, w);
}

proof fn lemma_owned_below(
    n: WindowNode,
    bases: Seq<u32>,
    id_mask: u32,
    m: int,
    k: int,
    w: (u32, u32),
)
    requires
        0 <= k < m <= n.children@.len(),
        owned_windows(n.children@[k], bases, id_mask).contains(w),
    ensures
        owned_below(n, bases, id_mask, m).contains(w),
    decreases m,
{
    let rest = owned_below(n, bases, id_mask, m - 1);
    let last = owned_windows(n.children@[m - 1], bases, id_mask);
    let all = owned_below(n, bases, id_mask, m);
    assert(all == rest + last);
    if k < m - 1 {
        lemma_owned_below(n, bases, id_mask, m - 1, k, w);
        let i = choose|i: int| 0 <= i < rest.len() && rest[i] == w;
        assert(all[i] == w);
    } else {
        let i = choose|i: int| 0 <= i < last.len() && last[i] == w;
        assert(all[rest.len() + i] == w);
    }
}

proof fn lemma_owned_belong(n: WindowNode, bases: Seq<u32>, id_mask: u32, w: (u32, u32))
    ensures
        owned_windows(n, bases, id_mask).contains(w) ==> belongs(w.0, bases, id_mask),
    decreases n, 1int, 0int,
{
    lemma_below_belong(n, bases, id_mask, n.children@.len() as int, w);
    let all = owned_windows(n, bases, id_mask);
    let below = owned_below(n, bases, id_mask, n.children@.len() as int);
    if all.contains(w) && w != (n.id, n.area->0) {
        let i = choose|i: int| 0 <= i < all.len() && all[i] == w;
        assert(below[i - (all.len() - below.len())] == w);
    } else if all.contains(w) && !belongs(n.id, bases, id_mask) {
        assert(all =~= below);
    }
}

proof fn lemma_below_belong(n: WindowNode, bases: Seq<u32>, id_mask: u32, k: int, w: (u32, u32))
    requires
        k <= n.children@.len(),
    ensures
        owned_below(n, bases, id_mask, k).contains(w) ==> belongs(w.0, bases, id_mask),
    decreases n, 0int, k,
{
    if k > 0 {
        let rest = owned_below(n, bases, id_mask, k - 1);
        let last = owned_windows(n.children@[k - 1], bases, id_mask);
        let all = owned_below(n, bases, id_mask, k);
        lemma_below_belong(n, bases, id_mask, k - 1, w);
        lemma_owned_belong(n.children@[k - 1], bases, id_mask, w);
        if all.contains(w) {
            let i = choose|i: int| 0 <= i < all.len() && all[i] == w;
            if i < rest.len() {
                assert(rest[i] == w);
            } else {
                assert(last[i - rest.len()] == w);
            }
        }
    }
}

/// The windows that name a process are found in the whole tree, also where their
/// area is unknown.
pub proof fn law_named_windows(n: WindowNode, pid: u32, k: int, w: (u32, u32))
    ensures
        n.pid == Some(pid) && n.area is Some ==> named_windows(n, pid).contains((n.id, n.area->0)),
        n.pid == Some(pid) && n.area is None ==> named_windows(n, pid).contains((n.id, 0)),
        0 <= k < n.children@.len() && named_windows(n.children@[k], pid).contains(w)
            ==> named_windows(n, pid).contains(w),
        n.pid != Some(pid) && n.children@.len() == 0 ==> named_windows(n, pid).len() == 0,
{
    let all = named_windows(n, pid);
    let below = named_below(n, pid, n.children@.len() as int);
    if n.pid == Some(pid) {
        assert(all[0] == (
            n.id,
            match n.area {
                Some(a) => a,
                None => 0,
            },
        ));
    }
    if 0 <= k < n.children@.len() && named_windows(n.children@[k], pid).contains(w) {
        lemma_named_below(n, pid, n.children@.len() as int, k, w);
        let i = choose|i: int| 0 <= i < below.len() && below[i] == w;
        assert(all[all.len() - below.len() + i] == w);
    }
}

proof fn lemma_named_below(n: WindowNode, pid: u32, m: int, k: int, w: (u32, u32))
    requires
        0 <= k < m <= n.children@.len(),
        named_windows(n.children@[k], pid).contains(w),
    ensures
        named_below(n, pid, m).contains(w),
    decreases m,
{
    let rest = named_below(n, pid, m - 1);
    let last = named_windows(n.children@[m - 1], pid);
    let all = named_below(n, pid, m);
    assert(all == rest + last);
    if k < m - 1 {
        lemma_named_below(n, pid, m - 1, k, w);
        let i = choose|i: int| 0 <= i < rest.len() && rest[i] == w;
        assert(all[i] == w);
    } else {
        let i = choose|i: int| 0 <= i < last.len() && last[i] == w;
        assert(all[rest.len() + i] == w);
    }
}

/// Of the topmost windows, those of the clients that have an area are taken.
pub proof fn law_top_windows(c: Seq<WindowNode>, bases: Seq<u32>, id_mask: u32, k: int)
    requires
        0 <= k < c.len(),
    ensures
        belongs(c[k].id, bases, id_mask) && c[k].area is Some ==> top_windows(
            c,
            bases,
            id_mask,
        ).contains((c[k].id, c[k].area->0)),
        forall|i: int|
            0 <= i < top_windows(c, bases, id_mask).len() ==> belongs(
                (#[trigger] top_windows(c, bases, id_mask)[i]).0,
                bases,
                id_mask,
            ),
    decreases c.len(),
{
    let front = c.drop_last();
    let rest = top_windows(front, bases, id_mask);
    let all = top_windows(c, bases, id_mask);
    if front.len() > 0 {
        law_top_windows(
            front,
            bases,
            id_mask,
            if k < front.len() {
                k
            } else {
                0
            },
        );
    }
    if belongs(c[k].id, bases, id_mask) && c[k].area is Some {
        let w = (c[k].id, c[k].area->0);
        if k < front.len() {
            assert(front[k] == c[k]);
            let i = choose|i: int| 0 <= i < rest.len() && rest[i] == w;
            assert(all[i] == w);
        } else {
            assert(all[rest.len() as int] == w);
        }
    }
    assert forall|i: int| 0 <= i < all.len() implies belongs(
        (#[trigger] all[i]).0,
        bases,
        id_mask,
    ) by {
        if i < rest.len() {
            assert(rest[i] == all[i]);
        }
    }
}

/// A process without a client has no windows, and one that has topmost windows has
/// no others, the largest of them first.
pub proof fn law_windows_of_a_process(
    root: WindowNode,
    ids: Seq<(Option<u32>, u32)>,
    id_mask: u32,
    pid: u32,
    k: int,
)
    requires
        0 <= k < root.children@.len(),
    ensures
        (forall|i: int| 0 <= i < ids.len() ==> (#[trigger] ids[i]).0 != Some(pid))
            ==> client_windows(root, ids, id_mask, pid).len() == 0,
        ({
            let w = root.children@[k];
            let bases = bases_of(ids, pid);
            let v = client_windows(root, ids, id_mask, pid);
            belongs(w.id, bases, id_mask) && w.area is Some ==> v.len() > 0 && v.contains(w.id)
                && exists|j: int|
                0 <= j < root.children@.len() && (#[trigger] root.children@[j]).id == v[0]
                    && root.children@[j].area is Some && root.children@[j].area->0 >= w.area->0
        }),
{
    broadcast use vstd::seq_lib::group_to_multiset_ensures;

    let bases = bases_of(ids, pid);
    if forall|i: int| 0 <= i < ids.len() ==> (#[trigger] ids[i]).0 != Some(pid) {
        if bases.len() > 0 {
            assert(bases[0] == bases[0]);
            law_bases_of_a_process(ids, pid, bases[0]);
            let i = choose|i: int| 0 <= i < ids.len() && ids[i] == (Some(pid), bases[0]);
            assert(ids[i].0 == Some(pid));
        }
    }
    let w = root.children@[k];
    if belongs(w.id, bases, id_mask) && w.area is Some {
        let top = top_windows(root.children@, bases, id_mask);
        let s = by_area(top);
        let x = (w.id, w.area->0);
        law_top_windows(root.children@, bases, id_mask, k);
        law_by_area(top);
        assert(top.to_multiset().count(x) > 0);
        assert(s.contains(x));
        let i = choose|i: int| 0 <= i < s.len() && s[i] == x;
        assert(window_ids(s)[i] == w.id);
        assert(s.to_multiset().count(s[0]) > 0);
        assert(top.contains(s[0]));
        lemma_top_is_child(root.children@, bases, id_mask, s[0]);
        assert(s[0].1 >= s[i].1);
    }
}

proof fn lemma_top_is_child(c: Seq<WindowNode>, bases: Seq<u32>, id_mask: u32, w: (u32, u32))
    requires
        top_windows(c, bases, id_mask).contains(w),
    ensures
        exists|j: int|
            0 <= j < c.len() && (#[trigger] c[j]).id == w.0 && c[j].area == Some(w.1),
    decreases c.len(),
{
    let all = top_windows(c, bases, id_mask);
    let i = choose|i: int| 0 <= i < all.len() && all[i] == w;
    if c.len() > 0 {
        let rest = top_windows(c.drop_last(), bases, id_mask);
        if i < rest.len() {
            assert(rest[i] == w);
            lemma_top_is_child(c.drop_last(), bases, id_mask, w);
            let j = choose|j: int|
                0 <= j < c.drop_last().len() && (#[trigger] c.drop_last()[j]).id == w.0
                    && c.drop_last()[j].area == Some(w.1);
            assert(c[j].id == w.0 && c[j].area == Some(w.1));
        } else {
            assert(c[c.len() - 1].id == w.0);
        }
    }
}

/// Up to 500 failed searches in a row a window is looked for in each frame; after
/// more only in each sixtieth. A process that was never looked for has not failed.
pub proof fn law_searches_become_rare(m: Map<u32, u32>, pid: u32, fails: u32, frame: u64)
    ensures
        fails <= 500 ==> !search_paused(fails, frame),
        fails > 500 ==> (search_paused(fails, frame) <==> frame as int % 60 != 0),
        !m.contains_key(pid) ==> fails_of(m, pid) == 0,
        fails_of(m.insert(pid, fails), pid) == fails,
{
}

/// A found window is checked once 120 frames have gone by and not before; from then
/// on a capture is started for it, and read once it runs.
pub proof fn law_steps_of_a_window(e: EmbeddedWindow, found: u64, frame: u64)
    requires
        found <= frame,
    ensures
        e.phase == (CapturePhase::Stabilizing { found_at_frame: found }) ==> {
            &&& frame - found < 120 ==> known_next(e, frame, true) is Nothing
            &&& frame - found >= 120 ==> known_next(e, frame, true) == EmbedAction::CheckWindow(
                e.window,
            )
            &&& frame - found >= 120 ==> known_next(e, frame, false) == EmbedAction::CheckWindow(
                e.window,
            )
        },
        e.phase is Offscreen && !e.capturing ==> known_next(e, frame, true)
            == EmbedAction::StartCapture(e.window),
        e.phase is Offscreen && e.capturing ==> known_next(e, frame, true) is ReadCapture,
        e.phase is Offscreen ==> known_next(e, frame, false) is Nothing,
{
}

/// A capture with a new number is taken over, and shown where it has a size; one
/// that was taken over before, or that holds no picture, changes nothing.
pub proof fn law_captures_are_shown(e: EmbeddedWindow, bg: BgCapture, r: EmbedAction)
    requires
        shows(r, taken_over(e, bg)),
    ensures
        bg.pixels is Some && bg.gen != e.last_gen && bg.width > 0 && bg.height > 0 ==> r is Show
            && r->pixels@ == bg.pixels->0@ && r->Show_width == bg.width && r->Show_height
            == bg.height,
        bg.pixels is Some && bg.gen != e.last_gen && (bg.width == 0 || bg.height == 0)
            ==> r is Nothing,
        bg.pixels is None || bg.gen == e.last_gen ==> taken_over(e, bg) == e,
        taken_over(taken_over(e, bg), bg) == taken_over(e, bg),
        bg.pixels is Some ==> taken_over(e, bg).last_gen == bg.gen,
        taken_over(e, bg).window == e.window && taken_over(e, bg).phase == e.phase,
        taken_over(e, bg).capturing == e.capturing,
{
}

} // verus!
