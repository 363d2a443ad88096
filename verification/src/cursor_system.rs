//! Which cursor the window shows: the choice by game state, the cache of created
//! cursors, and the hand-over between the game's cursor and a custom one.
//!
//! A cursor object is known by its handle; the handle 0 stands for none.

use crate::cursor_image::CursorImage;
use crate::text::same_text;
use vstd::prelude::*;
use vstd::string::*;

verus! {

/// The cursor of one game state. The hotspot is in thousandths of the size.
#[derive(Clone, Debug)]
pub struct CursorConfig {
    pub cursor_name: String,
    pub cursor_size: i32,
    pub hotspot_x: i32,
    pub hotspot_y: i32,
}

/// The cursors of the game states.
#[derive(Clone, Debug)]
pub struct CursorsConfig {
    pub enabled: bool,
    pub title: CursorConfig,
    pub wall: CursorConfig,
    pub ingame: CursorConfig,
}

/// The cursor of a game state: the title screen and the wall have their own,
/// every other state has the one of the game.
pub open spec fn state_cursor(cfg: CursorsConfig, game_state: Seq<char>) -> CursorConfig {
    if game_state == "title"@ {
        cfg.title
    } else if game_state == "wall"@ {
        cfg.wall
    } else {
        cfg.ingame
    }
}

/// A custom cursor is shown: they are enabled, the game has not grabbed the
/// pointer or the settings window is open, and the state's cursor has a name.
pub open spec fn shows_custom(
    cfg: CursorsConfig,
    game_state: Seq<char>,
    captured: bool,
    gui_open: bool,
) -> bool {
    cfg.enabled && (!captured || gui_open) && state_cursor(cfg, game_state).cursor_name@.len() > 0
}

/// The custom cursor to show.
pub fn select_cursor_state<'a>(
    cfg: &'a CursorsConfig,
    game_state: &str,
    captured: bool,
    gui_open: bool,
) -> (r: Option<&'a CursorConfig>)
    ensures
        r is Some <==> shows_custom(*cfg, game_state@, captured, gui_open),
        r matches Some(c) ==> *c == state_cursor(*cfg, game_state@),
{
    if !cfg.enabled {
        return None;
    }
    if captured && !gui_open {
        return None;
    }
    proof {
        reveal_strlit("title");
        reveal_strlit("wall");
    }
    let cc = if same_text(game_state, "title") {
        &cfg.title
    } else if same_text(game_state, "wall") {
        &cfg.wall
    } else {
        &cfg.ingame
    };
    if cc.cursor_name.as_str().is_empty() {
        None
    } else {
        Some(cc)
    }
}

// ---------------------------------------------------------------------------
// Keys
// ---------------------------------------------------------------------------

/// What tells two created cursors apart: name, size and hotspot.
#[derive(Clone, Debug)]
pub struct CursorKey {
    pub name: String,
    pub size: i32,
    pub hotspot_x: i32,
    pub hotspot_y: i32,
}

#[verifier::ext_equal]
pub struct KeyView {
    pub name: Seq<char>,
    pub size: i32,
    pub hotspot_x: i32,
    pub hotspot_y: i32,
}

impl View for CursorKey {
    type V = KeyView;

    open spec fn view(&self) -> KeyView {
        KeyView {
            name: self.name@,
            size: self.size,
            hotspot_x: self.hotspot_x,
            hotspot_y: self.hotspot_y,
        }
    }
}

/// A cursor is between 8 and 256 pixels wide.
pub open spec fn clamped_size(size: i32) -> i32 {
    if size < 8 {
        8
    } else if size > 256 {
        256
    } else {
        size
    }
}

pub open spec fn key_of(c: CursorConfig) -> KeyView {
    KeyView {
        name: c.cursor_name@,
        size: clamped_size(c.cursor_size),
        hotspot_x: c.hotspot_x,
        hotspot_y: c.hotspot_y,
    }
}

impl CursorKey {
    /// The key of a configured cursor.
    pub fn of(c: &CursorConfig) -> (r: CursorKey)
        ensures
            r@ == key_of(*c),
    {
        let size: i32 = if c.cursor_size < 8 {
            8
        } else if c.cursor_size > 256 {
            256
        } else {
            c.cursor_size
        };
        CursorKey {
            name: c.cursor_name.clone(),
            size,
            hotspot_x: c.hotspot_x,
            hotspot_y: c.hotspot_y,
        }
    }

    fn same(&self, other: &CursorKey) -> (r: bool)
        ensures
            r == (self@ == other@),
    {
        self.size == other.size && self.hotspot_x == other.hotspot_x && self.hotspot_y
            == other.hotspot_y && same_text(self.name.as_str(), other.name.as_str())
    }

    fn copied(&self) -> (r: CursorKey)
        ensures
            r@ == self@,
    {
        CursorKey {
            name: self.name.clone(),
            size: self.size,
            hotspot_x: self.hotspot_x,
            hotspot_y: self.hotspot_y,
        }
    }
}

// ---------------------------------------------------------------------------
// The system
// ---------------------------------------------------------------------------

/// The cache may hold so many cursors before it is emptied.
pub const CACHE_LIMIT: usize = 32;

/// A created cursor; the handle 0 says that it could not be created, so that it
/// is not tried again.
pub struct CacheEntry {
    pub key: CursorKey,
    pub handle: u64,
}

/// The custom cursors of the window.
pub struct CursorSystem {
    pub cache: Vec<CacheEntry>,
    /// The custom cursor that is installed.
    pub applied: Option<CursorKey>,
    /// The cursor that the game set last.
    pub game_cursor: u64,
    /// Whether the window shows a custom cursor.
    pub active: bool,
    pub warned_no_fns: bool,
}

#[verifier::ext_equal]
pub struct SystemView {
    pub cache: Seq<(KeyView, u64)>,
    pub applied: Option<KeyView>,
    pub game_cursor: u64,
    pub active: bool,
    pub warned_no_fns: bool,
}

pub open spec fn entry_views(v: Seq<CacheEntry>) -> Seq<(KeyView, u64)> {
    v.map_values(|e: CacheEntry| (e.key@, e.handle))
}

pub open spec fn opt_key(k: Option<CursorKey>) -> Option<KeyView> {
    match k {
        Some(k) => Some(k@),
        None => None,
    }
}

impl View for CursorSystem {
    type V = SystemView;

    open spec fn view(&self) -> SystemView {
        SystemView {
            cache: entry_views(self.cache@),
            applied: opt_key(self.applied),
            game_cursor: self.game_cursor,
            active: self.active,
            warned_no_fns: self.warned_no_fns,
        }
    }
}

/// The first cached entry of a key from `i` on.
pub open spec fn entry_at(c: Seq<(KeyView, u64)>, k: KeyView, i: int) -> Option<int>
    decreases c.len() - i,
{
    if i < 0 || i >= c.len() {
        None
    } else if c[i].0 == k {
        Some(i)
    } else {
        entry_at(c, k, i + 1)
    }
}

/// The cached handle of a key.
pub open spec fn cached(c: Seq<(KeyView, u64)>, k: KeyView) -> Option<u64> {
    match entry_at(c, k, 0) {
        Some(i) => Some(c[i].1),
        None => None,
    }
}

/// Every key is cached once, and a system that shows a custom cursor knows
/// which.
pub open spec fn system_ok(s: SystemView) -> bool {
    &&& forall|i: int, j: int|
        0 <= i < j < s.cache.len() ==> (#[trigger] s.cache[i]).0 != (#[trigger] s.cache[j]).0
    &&& s.active ==> s.applied is Some
}

/// The handles of a list of entries, those of cursors that exist.
pub open spec fn live_handles(c: Seq<(KeyView, u64)>) -> Seq<u64>
    decreases c.len(),
{
    if c.len() == 0 {
        Seq::empty()
    } else {
        let rest = live_handles(c.drop_last());
        if c.last().1 != 0 {
            rest.push(c.last().1)
        } else {
            rest
        }
    }
}

/// The entries that are not those of the installed cursor.
pub open spec fn others(c: Seq<(KeyView, u64)>, applied: Option<KeyView>) -> Seq<(KeyView, u64)> {
    c.filter(|e: (KeyView, u64)| applied != Some(e.0))
}

/// The entry of the installed cursor.
pub open spec fn installed_only(c: Seq<(KeyView, u64)>, applied: Option<KeyView>) -> Seq<
    (KeyView, u64),
> {
    c.filter(|e: (KeyView, u64)| applied == Some(e.0))
}

/// What is to be done with the window's cursor.
pub enum CursorStep {
    /// Nothing.
    Keep,
    /// Set the game's cursor, if one is given, then destroy the cursors.
    Restore { set: Option<u64>, destroy: Vec<u64> },
    /// Set this custom cursor and report it as installed.
    Install { key: CursorKey, handle: u64 },
    /// Destroy the cursors, then create the one of this key and report it.
    Create { key: CursorKey, destroy: Vec<u64> },
    /// Cursors cannot be created; `warn` the first time.
    Unavailable { warn: bool },
}

impl CursorSystem {
    /// No custom cursor yet.
    pub fn new() -> (r: CursorSystem)
        ensures
            r@ == (SystemView {
                cache: Seq::empty(),
                applied: None,
                game_cursor: 0,
                active: false,
                warned_no_fns: false,
            }),
            system_ok(r@),
    {
        let r = CursorSystem {
            cache: Vec::new(),
            applied: None,
            game_cursor: 0,
            active: false,
            warned_no_fns: false,
        };
        assert(r@.cache =~= Seq::<(KeyView, u64)>::empty());
        r
    }

    fn lookup(&self, key: &CursorKey) -> (r: Option<u64>)
        ensures
            r == cached(self@.cache, key@),
    {
        let mut i: usize = 0;
        while i < self.cache.len()
            invariant
                i <= self.cache@.len(),
                entry_at(self@.cache, key@, 0) == entry_at(self@.cache, key@, i as int),
            decreases self.cache.len() - i,
        {
            assert(self@.cache[i as int] == (self.cache@[i as int].key@, self.cache@[i as int].handle));
            if self.cache[i].key.same(key) {
                return Some(self.cache[i].handle);
            }
            i += 1;
        }
        None
    }

    fn is_applied(&self, key: &CursorKey) -> (r: bool)
        ensures
            r == (self@.applied == Some(key@)),
    {
        match &self.applied {
            Some(a) => a.same(key),
            None => false,
        }
    }

    /// Hands the window's cursor back to the game and drops all custom cursors.
    pub fn restore(&mut self) -> (r: CursorStep)
        requires
            system_ok(old(self)@),
        ensures
            system_ok(final(self)@),
            final(self)@ == (SystemView {
                cache: Seq::empty(),
                active: false,
                applied: if old(self)@.active {
                    None
                } else {
                    old(self)@.applied
                },
                ..old(self)@
            }),
            r matches CursorStep::Restore { set, destroy } && {
                &&& set == if old(self)@.active {
                    Some(old(self)@.game_cursor)
                } else {
                    None::<u64>
                }
                &&& destroy@ == live_handles(old(self)@.cache)
            },
    {
        let ghost c = self@.cache;
        let set: Option<u64> = if self.active {
            Some(self.game_cursor)
        } else {
            None
        };
        if self.active {
            self.active = false;
            self.applied = None;
        }
        let mut destroy: Vec<u64> = Vec::new();
        let mut i: usize = 0;
        while i < self.cache.len()
            invariant
                i <= self.cache@.len(),
                entry_views(self.cache@) == c,
                destroy@ == live_handles(c.take(i as int)),
            decreases self.cache.len() - i,
        {
            let h: u64 = self.cache[i].handle;
            assert(c[i as int].1 == h);
            if h != 0 {
                destroy.push(h);
            }
            i += 1;
            assert(c.take(i as int).drop_last() == c.take(i - 1));
        }
        assert(c.take(i as int) == c);
        self.cache = Vec::new();
        assert(self@.cache =~= Seq::<(KeyView, u64)>::empty());
        CursorStep::Restore { set, destroy }
    }

    /// Drops every cached cursor but the installed one; the result is what to
    /// destroy.
    fn evict(&mut self) -> (destroy: Vec<u64>)
        requires
            system_ok(old(self)@),
        ensures
            final(self)@ == (SystemView {
                cache: installed_only(old(self)@.cache, old(self)@.applied),
                ..old(self)@
            }),
            destroy@ == live_handles(others(old(self)@.cache, old(self)@.applied)),
    {
        let ghost c = self@.cache;
        let ghost a = self@.applied;
        let mut old_cache: Vec<CacheEntry> = Vec::new();
        core::mem::swap(&mut old_cache, &mut self.cache);
        let mut destroy: Vec<u64> = Vec::new();
        let mut i: usize = 0;
        assert(c.take(0) =~= Seq::<(KeyView, u64)>::empty());
        proof {
            reveal(Seq::filter);
        }
        assert(entry_views(self.cache@) =~= installed_only(c.take(0), a));
        while i < old_cache.len()
            invariant
                i <= old_cache@.len(),
                entry_views(old_cache@) == c,
                opt_key(self.applied) == a,
                self.applied == old(self).applied,
                self.game_cursor == old(self).game_cursor,
                self.active == old(self).active,
                self.warned_no_fns == old(self).warned_no_fns,
                entry_views(self.cache@) == installed_only(c.take(i as int), a),
                destroy@ == live_handles(others(c.take(i as int), a)),
            decreases old_cache.len() - i,
        {
            let e = &old_cache[i];
            let ghost v = c[i as int];
            assert(v == (e.key@, e.handle));
            proof {
                reveal(Seq::filter);
                let t = c.take(i + 1);
                assert(t.drop_last() == c.take(i as int));
                assert(t.last() == v);
                let o = others(t, a);
                if a != Some(v.0) {
                    assert(o == others(c.take(i as int), a).push(v));
                    assert(o.drop_last() == others(c.take(i as int), a));
                } else {
                    assert(o == others(c.take(i as int), a));
                }
            }
            if self.is_applied(&e.key) {
                let kept = CacheEntry { key: e.key.copied(), handle: e.handle };
                let ghost before = self.cache@;
                self.cache.push(kept);
                assert(entry_views(self.cache@) == entry_views(before).push(v));
            } else if e.handle != 0 {
                destroy.push(e.handle);
            }
            i += 1;
        }
        assert(c.take(i as int) == c);
        destroy
    }

    /// What one frame asks for. `fns_available` says whether cursors can be
    /// created at all.
    pub fn tick(
        &mut self,
        cfg: &CursorsConfig,
        game_state: &str,
        captured: bool,
        gui_open: bool,
        fns_available: bool,
    ) -> (r: CursorStep)
        requires
            system_ok(old(self)@),
        ensures
            system_ok(final(self)@),
            tick_result(
                old(self)@,
                final(self)@,
                r,
                *cfg,
                game_state@,
                captured,
                gui_open,
                fns_available,
            ),
    {
        if !cfg.enabled {
            return self.restore();
        }
        if captured && !gui_open {
            return CursorStep::Keep;
        }
        let cc = match select_cursor_state(cfg, game_state, captured, gui_open) {
            Some(cc) => cc,
            None => {
                return self.restore();
            },
        };
        let key = CursorKey::of(cc);
        if self.active && self.is_applied(&key) {
            return CursorStep::Keep;
        }
        match self.lookup(&key) {
            Some(handle) => {
                if handle == 0 {
                    CursorStep::Keep
                } else {
                    CursorStep::Install { key, handle }
                }
            },
            None => {
                if !fns_available {
                    let warn = !self.warned_no_fns;
                    self.warned_no_fns = true;
                    return CursorStep::Unavailable { warn };
                }
                let destroy = if self.cache.len() > CACHE_LIMIT {
                    proof {
                        lemma_filter_keeps_order(self@.cache, self@.applied);
                    }
                    self.evict()
                } else {
                    Vec::new()
                };
                CursorStep::Create { key, destroy }
            },
        }
    }

    /// Notes a cursor that was created for a key; 0 where that failed.
    pub fn created(&mut self, key: &CursorKey, handle: u64)
        requires
            system_ok(old(self)@),
            cached(old(self)@.cache, key@) is None,
        ensures
            system_ok(final(self)@),
            final(self)@ == (SystemView {
                cache: old(self)@.cache.push((key@, handle)),
                ..old(self)@
            }),
    {
        let ghost c = self@.cache;
        proof {
            lemma_not_cached(c, key@, 0);
        }
        self.cache.push(CacheEntry { key: key.copied(), handle });
        assert(self@.cache =~= c.push((key@, handle)));
    }

    /// Notes that the window shows the custom cursor of a key.
    pub fn installed(&mut self, key: CursorKey)
        requires
            system_ok(old(self)@),
        ensures
            system_ok(final(self)@),
            final(self)@ == (SystemView { applied: Some(key@), active: true, ..old(self)@ }),
    {
        self.applied = Some(key);
        self.active = true;
    }

    /// The game sets a cursor: it is remembered, and the result is the cursor
    /// to set instead, which is the custom one while that is shown.
    pub fn on_game_set_cursor(&mut self, cursor: u64) -> (r: u64)
        requires
            system_ok(old(self)@),
        ensures
            system_ok(final(self)@),
            final(self)@ == (SystemView { game_cursor: cursor, ..old(self)@ }),
            r == shown_instead(old(self)@, cursor),
    {
        self.game_cursor = cursor;
        if self.active {
            if let Some(k) = &self.applied {
                if let Some(h) = self.lookup(k) {
                    if h != 0 {
                        return h;
                    }
                }
            }
        }
        cursor
    }
}

/// The cursor that is shown when the game sets one.
pub open spec fn shown_instead(s: SystemView, cursor: u64) -> u64 {
    if s.active && s.applied is Some && cached(s.cache, s.applied->0) is Some && cached(
        s.cache,
        s.applied->0,
    )->0 != 0 {
        cached(s.cache, s.applied->0)->0
    } else {
        cursor
    }
}

/// The effect of a frame: the state before and after, and what is to be done.
pub open spec fn tick_result(
    before: SystemView,
    after: SystemView,
    step: CursorStep,
    cfg: CursorsConfig,
    game_state: Seq<char>,
    captured: bool,
    gui_open: bool,
    fns_available: bool,
) -> bool {
    let k = key_of(state_cursor(cfg, game_state));
    if cfg.enabled && captured && !gui_open {
        step is Keep && after == before
    } else if !shows_custom(cfg, game_state, captured, gui_open) {
        &&& step matches CursorStep::Restore { set, destroy } && set == (if before.active {
            Some(before.game_cursor)
        } else {
            None::<u64>
        }) && destroy@ == live_handles(before.cache)
        &&& after == (SystemView {
            cache: Seq::empty(),
            active: false,
            applied: if before.active {
                None
            } else {
                before.applied
            },
            ..before
        })
    } else if before.active && before.applied == Some(k) {
        step is Keep && after == before
    } else {
        match cached(before.cache, k) {
            Some(h) => after == before && (if h == 0 {
                step is Keep
            } else {
                step matches CursorStep::Install { key, handle } && key@ == k && handle == h
            }),
            None => if !fns_available {
                &&& step matches CursorStep::Unavailable { warn } && warn == !before.warned_no_fns
                &&& after == (SystemView { warned_no_fns: true, ..before })
            } else if before.cache.len() > CACHE_LIMIT {
                &&& step matches CursorStep::Create { key, destroy } && key@ == k && destroy@
                    == live_handles(others(before.cache, before.applied))
                &&& after == (SystemView {
                    cache: installed_only(before.cache, before.applied),
                    ..before
                })
            } else {
                &&& step matches CursorStep::Create { key, destroy } && key@ == k && destroy@.len()
                    == 0
                &&& after == before
            },
        }
    }
}

proof fn lemma_not_cached(c: Seq<(KeyView, u64)>, k: KeyView, i: int)
    requires
        0 <= i,
        entry_at(c, k, i) is None,
    ensures
        forall|j: int| i <= j < c.len() ==> (#[trigger] c[j]).0 != k,
    decreases c.len() - i,
{
    if i < c.len() {
        lemma_not_cached(c, k, i + 1);
    }
}

/// Keys that differ still differ among the kept entries.
proof fn lemma_filter_keeps_order(c: Seq<(KeyView, u64)>, a: Option<KeyView>)
    requires
        forall|i: int, j: int|
            0 <= i < j < c.len() ==> (#[trigger] c[i]).0 != (#[trigger] c[j]).0,
    ensures
        forall|i: int, j: int|
            #![trigger installed_only(c, a)[i], installed_only(c, a)[j]]
            0 <= i < j < installed_only(c, a).len() ==> installed_only(c, a)[i].0
                != installed_only(c, a)[j].0,
        forall|i: int|
            0 <= i < installed_only(c, a).len() ==> c.contains(#[trigger] installed_only(c, a)[i]),
    decreases c.len(),
{
    reveal(Seq::filter);
    if c.len() > 0 {
        let front = c.drop_last();
        lemma_filter_keeps_order(front, a);
        let f = installed_only(front, a);
        let w = installed_only(c, a);
        assert forall|i: int| 0 <= i < w.len() implies c.contains(#[trigger] w[i]) by {
            if i < f.len() {
                assert(w[i] == f[i]);
                let n = choose|n: int| 0 <= n < front.len() && front[n] == f[i];
                assert(c[n] == f[i]);
            } else {
                assert(c[c.len() - 1] == w[i]);
            }
        }
        assert forall|i: int, j: int|
            #![trigger w[i], w[j]]
            0 <= i < j < w.len() implies w[i].0 != w[j].0 by {
            if j < f.len() {
                assert(w[i] == f[i] && w[j] == f[j]);
            } else {
                assert(w[i] == f[i]);
                assert(w[j] == c.last());
                let n = choose|n: int| 0 <= n < front.len() && front[n] == f[i];
                assert(c[n] == f[i]);
                assert(c[n].0 != c[c.len() - 1].0);
            }
        }
    }
}

// ---------------------------------------------------------------------------
// Creating
// ---------------------------------------------------------------------------

/// The measures of a cursor to create: width, height and hotspot.
#[derive(Clone, Copy, Debug, PartialEq, Eq, Structural)]
pub struct CursorShape {
    pub width: i32,
    pub height: i32,
    pub hotspot_x: i32,
    pub hotspot_y: i32,
}

/// The measures of a cursor made of a picture, if its buffer fits it. The
/// file's hotspot counts before the configured one.
pub fn cursor_shape(img: &CursorImage, configured: (u32, u32)) -> (r: Option<CursorShape>)
    ensures
        r is Some <==> img.rgba@.len() == img.w * img.h * 4 && img.w > 0,
        r matches Some(s) ==> {
            let hot = match img.file_hotspot {
                Some(h) => h,
                None => configured,
            };
            s.width == img.w as i32 && s.height == img.h as i32 && s.hotspot_x == hot.0 as i32
                && s.hotspot_y == hot.1 as i32
        },
{
    assert(0 <= img.w * img.h <= u32::MAX * u32::MAX) by (nonlinear_arith)
        requires
            0 <= img.w <= u32::MAX,
            0 <= img.h <= u32::MAX,
    ;
    let need: u128 = img.w as u128 * img.h as u128 * 4;
    if img.rgba.len() as u128 != need || img.w == 0 {
        return None;
    }
    let hot: (u32, u32) = match img.file_hotspot {
        Some(h) => h,
        None => configured,
    };
    Some(
        CursorShape {
            width: img.w as i32,
            height: img.h as i32,
            hotspot_x: hot.0 as i32,
            hotspot_y: hot.1 as i32,
        },
    )
}

// ---------------------------------------------------------------------------
// Laws
// ---------------------------------------------------------------------------

proof fn lemma_filter_members(c: Seq<(KeyView, u64)>, a: Option<KeyView>, e: (KeyView, u64))
    ensures
        installed_only(c, a).contains(e) <==> c.contains(e) && a == Some(e.0),
        others(c, a).contains(e) <==> c.contains(e) && a != Some(e.0),
    decreases c.len(),
{
    reveal(Seq::filter);
    if c.len() > 0 {
        let front = c.drop_last();
        lemma_filter_members(front, a, e);
        let last = c.last();
        assert(c == front.push(last));
        assert(c.contains(e) <==> front.contains(e) || e == last) by {
            if front.contains(e) {
                let n = choose|n: int| 0 <= n < front.len() && front[n] == e;
                assert(c[n] == e);
            }
            if e == last {
                assert(c[c.len() - 1] == e);
            }
            if c.contains(e) {
                let n = choose|n: int| 0 <= n < c.len() && c[n] == e;
                if n < front.len() {
                    assert(front[n] == e);
                }
            }
        }
        lemma_push_contains(installed_only(front, a), last, e);
        lemma_push_contains(others(front, a), last, e);
    }
}

proof fn lemma_push_contains(s: Seq<(KeyView, u64)>, x: (KeyView, u64), e: (KeyView, u64))
    ensures
        s.push(x).contains(e) <==> s.contains(e) || e == x,
{
    let w = s.push(x);
    if s.contains(e) {
        let n = choose|n: int| 0 <= n < s.len() && s[n] == e;
        assert(w[n] == e);
    }
    if e == x {
        assert(w[s.len() as int] == e);
    }
    if w.contains(e) {
        let n = choose|n: int| 0 <= n < w.len() && w[n] == e;
        if n < s.len() {
            assert(s[n] == e);
        }
    }
}

/// Emptying a full cache never drops the installed cursor: its entry stays, and
/// what is destroyed belongs to other keys.
pub proof fn law_installed_cursor_survives(s: SystemView, e: (KeyView, u64))
    requires
        system_ok(s),
        s.cache.contains(e),
    ensures
        s.applied == Some(e.0) ==> installed_only(s.cache, s.applied).contains(e) && !others(
            s.cache,
            s.applied,
        ).contains(e),
        s.applied != Some(e.0) ==> others(s.cache, s.applied).contains(e),
{
    lemma_filter_members(s.cache, s.applied, e);
}

/// While nothing changes, a frame does nothing: once the cursor of the present
/// state is installed, it is kept.
pub proof fn law_steady_state_is_kept(
    before: SystemView,
    after: SystemView,
    step: CursorStep,
    cfg: CursorsConfig,
    game_state: Seq<char>,
    captured: bool,
    gui_open: bool,
    fns_available: bool,
)
    requires
        shows_custom(cfg, game_state, captured, gui_open),
        before.active,
        before.applied == Some(key_of(state_cursor(cfg, game_state))),
        tick_result(
            before,
            after,
            step,
            cfg,
            game_state,
            captured,
            gui_open,
            fns_available,
        ),
    ensures
        step is Keep,
        after == before,
{
}

/// Giving the cursor back is done once: a second frame without a custom cursor
/// sets nothing and destroys nothing.
pub proof fn law_restore_is_done_once(
    s0: SystemView,
    s1: SystemView,
    s2: SystemView,
    first: CursorStep,
    second: CursorStep,
    cfg: CursorsConfig,
    game_state: Seq<char>,
    captured: bool,
    gui_open: bool,
    fns_available: bool,
)
    requires
        !shows_custom(cfg, game_state, captured, gui_open),
        !(cfg.enabled && captured && !gui_open),
        tick_result(s0, s1, first, cfg, game_state, captured, gui_open, fns_available),
        tick_result(s1, s2, second, cfg, game_state, captured, gui_open, fns_available),
    ensures
        s2 == s1,
        second matches CursorStep::Restore { set, destroy } && set is None && destroy@.len() == 0,
{
    assert(live_handles(s1.cache) == Seq::<u64>::empty());
}

/// Each state of the game has its cursor: the title screen, the wall, and
/// everything else. A custom one is shown where the cursors are enabled and one is
/// configured, while the pointer is free or the settings are open.
pub proof fn law_cursor_of_a_state(cfg: CursorsConfig, state: Seq<char>)
    ensures
        state_cursor(cfg, "title"@) == cfg.title,
        state_cursor(cfg, "wall"@) == cfg.wall,
        state != "title"@ && state != "wall"@ ==> state_cursor(cfg, state) == cfg.ingame,
        !cfg.enabled ==> !shows_custom(cfg, state, false, true),
        cfg.enabled && cfg.title.cursor_name@.len() > 0 ==> shows_custom(
            cfg,
            "title"@,
            false,
            false,
        ) && shows_custom(cfg, "title"@, true, true) && !shows_custom(cfg, "title"@, true, false),
        cfg.title.cursor_name@.len() == 0 ==> !shows_custom(cfg, "title"@, false, true),
        cfg.enabled && cfg.wall.cursor_name@.len() > 0 ==> shows_custom(
            cfg,
            "wall"@,
            false,
            false,
        ),
        cfg.enabled && cfg.ingame.cursor_name@.len() > 0 && state != "title"@ && state != "wall"@
            ==> shows_custom(cfg, state, false, false),
{
    reveal_strlit("title");
    reveal_strlit("wall");
    assert("title"@.len() == 5 && "wall"@.len() == 4);
}

/// A cursor is made in the configured size, between 8 and 256 pixels.
pub proof fn law_cursor_sizes(c: CursorConfig)
    ensures
        8 <= key_of(c).size <= 256,
        8 <= c.cursor_size <= 256 ==> key_of(c).size == c.cursor_size,
        c.cursor_size < 8 ==> key_of(c).size == 8,
        c.cursor_size > 256 ==> key_of(c).size == 256,
        key_of(c).name == c.cursor_name@,
        key_of(c).hotspot_x == c.hotspot_x && key_of(c).hotspot_y == c.hotspot_y,
{
}

/// A tick with a free pointer installs the configured cursor if it was made
/// before, and has it made if not; what is installed already stays.
pub proof fn law_tick_shows_the_configured_cursor(
    before: SystemView,
    after: SystemView,
    step: CursorStep,
    cfg: CursorsConfig,
    captured: bool,
    gui_open: bool,
    i: int,
)
    requires
        tick_result(before, after, step, cfg, "title"@, captured, gui_open, true),
        system_ok(before),
        cfg.enabled,
        cfg.title.cursor_name@.len() > 0,
        !captured || gui_open,
        before.applied != Some(key_of(cfg.title)),
    ensures
        (forall|k: int| 0 <= k < before.cache.len() ==> (#[trigger] before.cache[k]).0 != key_of(
            cfg.title,
        )) ==> (step matches CursorStep::Create { key, destroy } && key@.name
            == cfg.title.cursor_name@ && key@ == key_of(cfg.title)),
        0 <= i < before.cache.len() && before.cache[i].0 == key_of(cfg.title) && before.cache[i].1
            != 0 ==> (step matches CursorStep::Install { key, handle } && key@ == key_of(
            cfg.title,
        ) && handle == before.cache[i].1),
        0 <= i < before.cache.len() && before.cache[i].0 == key_of(cfg.title) && before.cache[i].1
            == 0 ==> step is Keep,
{
    law_cursor_of_a_state(cfg, "title"@);
    lemma_cached(before.cache, key_of(cfg.title), 0);
}

proof fn lemma_cached(c: Seq<(KeyView, u64)>, k: KeyView, from: int)
    requires
        0 <= from,
    ensures
        match entry_at(c, k, from) {
            Some(i) => from <= i < c.len() && c[i].0 == k,
            None => forall|i: int| from <= i < c.len() ==> (#[trigger] c[i]).0 != k,
        },
    decreases c.len() - from,
{
    if from < c.len() && c[from].0 != k {
        lemma_cached(c, k, from + 1);
    }
}

proof fn lemma_live_handles(c: Seq<(KeyView, u64)>, h: u64)
    ensures
        live_handles(c).contains(h) <==> h != 0 && exists|i: int|
            0 <= i < c.len() && (#[trigger] c[i]).1 == h,
    decreases c.len(),
{
    if c.len() > 0 {
        let front = c.drop_last();
        lemma_live_handles(front, h);
        let rest = live_handles(front);
        assert(rest.push(c.last().1).contains(h) <==> rest.contains(h) || c.last().1 == h) by {
            if rest.contains(h) {
                let i = choose|i: int| 0 <= i < rest.len() && rest[i] == h;
                assert(rest.push(c.last().1)[i] == h);
            }
            assert(rest.push(c.last().1)[rest.len() as int] == c.last().1);
        }
        if exists|i: int| 0 <= i < front.len() && (#[trigger] front[i]).1 == h {
            let i = choose|i: int| 0 <= i < front.len() && (#[trigger] front[i]).1 == h;
            assert(c[i].1 == h);
        }
        if exists|i: int| 0 <= i < c.len() && (#[trigger] c[i]).1 == h {
            let i = choose|i: int| 0 <= i < c.len() && (#[trigger] c[i]).1 == h;
            if i < front.len() {
                assert(front[i].1 == h);
            }
        }
        assert(c[c.len() - 1] == c.last());
    }
}

/// Where no custom cursor is to be shown, the game's own is set again if another
/// one was shown, every cursor that was made is destroyed, and none is kept.
pub proof fn law_restore_gives_the_game_its_cursor(
    before: SystemView,
    after: SystemView,
    step: CursorStep,
    cfg: CursorsConfig,
    state: Seq<char>,
    captured: bool,
    gui_open: bool,
    fns_available: bool,
    h: u64,
)
    requires
        tick_result(before, after, step, cfg, state, captured, gui_open, fns_available),
        !cfg.enabled,
    ensures
        step matches CursorStep::Restore { set, destroy } && {
            &&& before.active ==> set == Some(before.game_cursor)
            &&& !before.active ==> set is None
            &&& destroy@.contains(h) <==> h != 0 && exists|i: int|
                0 <= i < before.cache.len() && (#[trigger] before.cache[i]).1 == h
        },
        after.cache.len() == 0 && !after.active && after.game_cursor == before.game_cursor,
{
    lemma_live_handles(before.cache, h);
}

/// A pointer that the game has grabbed is left alone.
pub proof fn law_grabbed_pointer_is_left_alone(
    before: SystemView,
    after: SystemView,
    step: CursorStep,
    cfg: CursorsConfig,
    state: Seq<char>,
    fns_available: bool,
)
    requires
        tick_result(before, after, step, cfg, state, true, false, fns_available),
        cfg.enabled,
    ensures
        step is Keep,
        after == before,
{
}

/// When the game sets a cursor while a custom one is shown, the custom one stays;
/// else the game gets what it asks for.
pub proof fn law_game_cursor_waits(s: SystemView, cursor: u64, i: int)
    requires
        system_ok(s),
    ensures
        !s.active ==> shown_instead(s, cursor) == cursor,
        s.active && 0 <= i < s.cache.len() && s.applied == Some(s.cache[i].0) && s.cache[i].1 != 0
            ==> shown_instead(s, cursor) == s.cache[i].1,
{
    if let Some(k) = s.applied {
        lemma_cached(s.cache, k, 0);
    }
}

/// A cursor needs a picture of its size; its hotspot is the file's, or the
/// configured one where the file has none.
pub proof fn law_cursor_shapes(
    img: &CursorImage,
    configured: (u32, u32),
    r: Option<CursorShape>,
)
    requires
        call_ensures(cursor_shape, (img, configured), r),
    ensures
        img.rgba@.len() != img.w * img.h * 4 || img.w == 0 ==> r is None,
        img.rgba@.len() == img.w * img.h * 4 && img.w > 0 ==> r is Some && r->0.width
            == img.w as i32 && r->0.height == img.h as i32,
        r is Some && img.file_hotspot is None ==> r->0.hotspot_x == configured.0 as i32
            && r->0.hotspot_y == configured.1 as i32,
        img.file_hotspot matches Some((x, y)) ==> r is Some ==> r->0.hotspot_x == x as i32
            && r->0.hotspot_y == y as i32,
{
}

/// A frame that keeps the cursor or installs one that is there changes nothing of
/// what is remembered. Up to 32 cursors stay when a new one is made; with more, all
/// but the installed one go. That none can be made is said once.
pub proof fn law_frames_remember(
    before: SystemView,
    after: SystemView,
    step: CursorStep,
    cfg: CursorsConfig,
    game_state: Seq<char>,
    captured: bool,
    gui_open: bool,
    fns_available: bool,
)
    requires
        tick_result(before, after, step, cfg, game_state, captured, gui_open, fns_available),
    ensures
        step is Keep || step is Install ==> after == before,
        step is Create && before.cache.len() <= 32 ==> after == before && step->Create_destroy@.len()
            == 0,
        step is Create && before.cache.len() > 32 ==> forall|i: int|
            0 <= i < after.cache.len() ==> before.applied == Some((#[trigger] after.cache[i]).0),
        step is Create ==> after.active == before.active && after.applied == before.applied
            && fns_available,
        step matches CursorStep::Unavailable { warn } ==> !fns_available && after.warned_no_fns
            && warn == !before.warned_no_fns && after.cache == before.cache,
        step is Restore ==> !after.active && after.cache.len() == 0,
{
}

} // verus!
