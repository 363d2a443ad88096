//! The state of the game, from the files that a state mod writes.

use crate::json::{parse_json, Json};
use crate::text::{find_char, from_range, same_text, to_chars, trim, trim_bounds};
use vstd::prelude::*;
use vstd::string::*;

verus! {

use crate::json::{field, holds, holds_text, json_text, lacks, law_field_is_found};
use crate::text::{find_from, lemma_find_from, trimmed};

/// Milliseconds between two looks.
pub const POLL_MS: u64 = 50;

/// A heartbeat that is so many milliseconds away is stale.
pub const HERMES_STALE_MS: u64 = 3000;

/// Seconds that a state mod has to show up before its absence is reported.
pub const MOD_WARN_GRACE_S: u64 = 60;

/// Where the state comes from.
#[derive(Clone, Copy, Debug, PartialEq, Eq, Structural)]
pub enum StateSource {
    /// `hermes/state.json`
    Hermes,
    /// `wpstateout.txt`
    WpStateOut,
}

impl StateSource {
    /// The file, inside the game's directory.
    pub fn path(&self) -> (r: &'static str)
        ensures
            r@ == match *self {
                StateSource::Hermes => "hermes/state.json"@,
                StateSource::WpStateOut => "wpstateout.txt"@,
            },
    {
        match self {
            StateSource::Hermes => "hermes/state.json",
            StateSource::WpStateOut => "wpstateout.txt",
        }
    }

    /// How the log calls it.
    pub fn label(&self) -> (r: &'static str)
        ensures
            r@ == match *self {
                StateSource::Hermes => "hermes/state.json"@,
                StateSource::WpStateOut => "wpstateout.txt (State Output)"@,
            },
    {
        match self {
            StateSource::Hermes => "hermes/state.json",
            StateSource::WpStateOut => "wpstateout.txt (State Output)",
        }
    }
}

// ---------------------------------------------------------------------------
// Liveness
// ---------------------------------------------------------------------------

/// Eight bytes as a number, high byte first.
pub open spec fn be64(b: Seq<u8>, i: int) -> int {
    ((((((b[i] * 256 + b[i + 1]) * 256 + b[i + 2]) * 256 + b[i + 3]) * 256 + b[i + 4]) * 256 + b[i
        + 5]) * 256 + b[i + 6]) * 256 + b[i + 7]
}

fn read64(b: &[u8], i: usize) -> (r: u64)
    requires
        i + 8 <= b@.len(),
    ensures
        r as int == be64(b@, i as int),
{
    let n: usize = b.len();
    let hi: u64 = ((b[i] as u64 * 256 + b[i + 1] as u64) * 256 + b[i + 2] as u64) * 256 + b[i
        + 3] as u64;
    let lo: u64 = ((b[i + 4] as u64 * 256 + b[i + 5] as u64) * 256 + b[i + 6] as u64) * 256 + b[i
        + 7] as u64;
    hi * 0x1_0000_0000 + lo
}

/// The heartbeat file is that of process `pid`, and its beat is near `now_ms`.
pub open spec fn beats(bytes: Seq<u8>, pid: int, now_ms: int) -> bool {
    &&& bytes.len() >= 16
    &&& be64(bytes, 0) == pid
    &&& -HERMES_STALE_MS < now_ms - be64(bytes, 8) < HERMES_STALE_MS
}

/// Whether the mod is alive, from its heartbeat file: the process and the time
/// of the last beat.
pub fn hermes_alive(bytes: &[u8], pid: u32, now_ms: u64) -> (r: bool)
    ensures
        r == beats(bytes@, pid as int, now_ms as int),
{
    if bytes.len() < 16 {
        return false;
    }
    let id: u64 = read64(bytes, 0);
    let beat: u64 = read64(bytes, 8);
    if id != pid as u64 {
        return false;
    }
    if now_ms >= beat {
        now_ms - beat < HERMES_STALE_MS
    } else {
        beat - now_ms < HERMES_STALE_MS
    }
}

/// Whether a state file was written since the load. Without a load time it
/// counts as written, without a time of its own as not.
pub fn wpstateout_fresh(mtime: Option<i128>, load: Option<i128>) -> (r: bool)
    ensures
        r == (match load {
            None => true,
            Some(l) => mtime matches Some(m) && m >= l,
        }),
{
    match load {
        None => true,
        Some(l) => match mtime {
            Some(m) => m >= l,
            None => false,
        },
    }
}

/// What is found in the game's directory.
pub struct Found {
    /// `hermes/state.json` exists.
    pub hermes: bool,
    /// What `hermes/alive` holds, if it can be read.
    pub alive: Option<Vec<u8>>,
    /// `wpstateout.txt` exists.
    pub wpstateout: bool,
    /// When it was written.
    pub wpstateout_time: Option<i128>,
}

/// The live source: the first of the two files that exists and is kept up.
pub open spec fn live_source(f: Found, pid: int, now_ms: int, load: Option<i128>) -> Option<
    StateSource,
> {
    if f.hermes && f.alive is Some && beats(f.alive->0@, pid, now_ms) {
        Some(StateSource::Hermes)
    } else if f.wpstateout && (load is None || (f.wpstateout_time is Some && f.wpstateout_time->0
        >= load->0)) {
        Some(StateSource::WpStateOut)
    } else {
        None
    }
}

/// The source to read.
pub fn find_live_source(f: &Found, pid: u32, now_ms: u64, load: Option<i128>) -> (r: Option<
    StateSource,
>)
    ensures
        r == live_source(*f, pid as int, now_ms as int, load),
{
    if f.hermes {
        if let Some(b) = &f.alive {
            if hermes_alive(b.as_slice(), pid, now_ms) {
                return Some(StateSource::Hermes);
            }
        }
    }
    if f.wpstateout && wpstateout_fresh(f.wpstateout_time, load) {
        return Some(StateSource::WpStateOut);
    }
    None
}

// ---------------------------------------------------------------------------
// States
// ---------------------------------------------------------------------------

/// The state inside a world tells whether the game has grabbed the pointer.
pub open spec fn inworld(captured: bool) -> Seq<char> {
    if captured {
        "inworld,cursor_grabbed"@
    } else {
        "inworld,cursor_free"@
    }
}

pub fn inworld_state(captured: bool) -> (r: &'static str)
    ensures
        r@ == inworld(captured),
{
    if captured {
        "inworld,cursor_grabbed"
    } else {
        "inworld,cursor_free"
    }
}

/// The class of the screen that is shown; empty where none is told.
pub open spec fn screen_class(j: Json) -> Seq<char> {
    match field(j, "screen"@) {
        Some(s) => match field(s, "class"@) {
            Some(Json::Str(c)) => c@,
            _ => Seq::empty(),
        },
        None => Seq::empty(),
    }
}

/// The state that a Hermes report means; only an object is a report.
pub open spec fn hermes_state_of(j: Json, captured: bool) -> Option<Seq<char>> {
    if !(j is Object) {
        None
    } else {
        let c = screen_class(j);
        let in_world = match field(j, "world"@) {
            Some(Json::Null) => false,
            Some(_) => true,
            None => false,
        };
        Some(
            if c == "net.minecraft.class_3928"@ {
                "generating"@
            } else if c == "me.contaria.seedqueue.gui.wall.SeedQueueWallScreen"@ || c
                == "me.contaria.seedqueue.gui.wall.SeedQueuePreview"@ {
                "wall"@
            } else if in_world {
                inworld(captured)
            } else {
                "title"@
            },
        )
    }
}

pub open spec fn opt_str(r: Option<&'static str>) -> Option<Seq<char>> {
    match r {
        Some(s) => Some(s@),
        None => None,
    }
}

/// The state that a Hermes report means.
pub fn hermes_state(json: &Json, captured: bool) -> (r: Option<&'static str>)
    ensures
        opt_str(r) == hermes_state_of(*json, captured),
{
    match json {
        Json::Object(..) => {},
        _ => {
            return None;
        },
    }
    let in_world = match json.get("world") {
        Some(Json::Null) => false,
        Some(_) => true,
        None => false,
    };
    let class: String = match json.get("screen") {
        Some(s) => s.text("class", ""),
        None => String::new(),
    };
    proof {
        reveal_strlit("");
        assert(""@ =~= Seq::<char>::empty());
    }
    assert(class@ == screen_class(*json));
    let c = class.as_str();
    if same_text(c, "net.minecraft.class_3928") {
        return Some("generating");
    }
    if same_text(c, "me.contaria.seedqueue.gui.wall.SeedQueueWallScreen") || same_text(
        c,
        "me.contaria.seedqueue.gui.wall.SeedQueuePreview",
    ) {
        return Some("wall");
    }
    if in_world {
        Some(inworld_state(captured))
    } else {
        Some("title")
    }
}

/// The state that the text of `hermes/state.json` means; none where the text
/// is empty, not JSON, or no object.
pub fn parse_hermes(text: &str, captured: bool) -> (r: Option<&'static str>)
    ensures
        opt_str(r) == if trimmed(text@).len() == 0 || json_text(trimmed(text@)) is None {
            None
        } else {
            hermes_state_of(json_text(trimmed(text@))->0, captured)
        },
{
    let t = trim(text);
    if t.as_str().is_empty() {
        return None;
    }
    match parse_json(t.as_str()) {
        Some(j) => hermes_state(&j, captured),
        None => None,
    }
}

/// The tag of a state line: what stands before the first comma.
pub open spec fn state_tag(raw: Seq<char>) -> Seq<char> {
    match find_from(raw, seq![','], 0) {
        Some(i) => trimmed(raw.take(i)),
        None => trimmed(raw),
    }
}

/// The state that a state line means; an unknown tag is the title screen.
pub open spec fn game_state_of(raw: Seq<char>, captured: bool) -> Seq<char> {
    let tag = state_tag(raw);
    if tag == "wall"@ {
        "wall"@
    } else if tag == "waiting"@ {
        "waiting"@
    } else if tag == "generating"@ || tag == "previewing"@ {
        "generating"@
    } else if tag == "inworld"@ {
        inworld(captured)
    } else {
        "title"@
    }
}

/// The state that a line of `wpstateout.txt` means.
pub fn to_game_state(raw: &str, captured: bool) -> (r: &'static str)
    ensures
        r@ == game_state_of(raw@, captured),
{
    let v = to_chars(raw);
    let end: usize = match find_char(&v, ',', 0) {
        Some(i) => i,
        None => v.len(),
    };
    proof {
        lemma_find_from(raw@, seq![','], 0);
        assert(v@.subrange(0, end as int) == v@.take(end as int));
        assert(v@.take(v@.len() as int) == v@);
    }
    let (a, b) = trim_bounds(&v, 0, end);
    let tag = from_range(&v, a, b);
    let t = tag.as_str();
    if same_text(t, "wall") {
        "wall"
    } else if same_text(t, "waiting") {
        "waiting"
    } else if same_text(t, "generating") || same_text(t, "previewing") {
        "generating"
    } else if same_text(t, "inworld") {
        inworld_state(captured)
    } else {
        "title"
    }
}

// ---------------------------------------------------------------------------
// The watcher
// ---------------------------------------------------------------------------

/// What the settings window shows of the state mod.
#[derive(Clone, Copy, Debug, PartialEq, Eq, Structural)]
pub enum StateModStatus {
    Hermes,
    StateOutput,
    Missing,
}

/// What the watcher remembers from one look to the next.
pub struct Watcher {
    pub last_state: String,
    /// The source that the log names.
    pub logged: Option<StateSource>,
    /// A live source was seen.
    pub ever_seen: bool,
    /// The absence of a source was reported.
    pub warned: bool,
}

/// What a look asks for.
#[derive(Clone, Copy, Debug, PartialEq, Eq, Structural)]
pub struct Look {
    pub status: StateModStatus,
    /// Name the source in the log.
    pub log_source: bool,
    /// Report that there is no state mod.
    pub warn: bool,
}

pub open spec fn status_of(source: Option<StateSource>) -> StateModStatus {
    match source {
        Some(StateSource::Hermes) => StateModStatus::Hermes,
        Some(StateSource::WpStateOut) => StateModStatus::StateOutput,
        None => StateModStatus::Missing,
    }
}

impl Watcher {
    pub fn new() -> (r: Watcher)
        ensures
            r.last_state@ == Seq::<char>::empty(),
            r.logged is None,
            !r.ever_seen,
            !r.warned,
    {
        Watcher { last_state: String::new(), logged: None, ever_seen: false, warned: false }
    }

    /// Takes note of the source that is live now. A source is named in the log
    /// when it is another than the last; that there is none is reported once,
    /// only where none was ever seen and the time for one to show up is over.
    pub fn look(&mut self, source: Option<StateSource>, waited_s: u64) -> (r: Look)
        ensures
            r.status == status_of(source),
            r.log_source == (source is Some && old(self).logged != source),
            r.warn == (source is None && !old(self).ever_seen && !old(self).warned && waited_s
                >= MOD_WARN_GRACE_S),
            final(self).logged == source,
            final(self).ever_seen == (old(self).ever_seen || source is Some),
            final(self).warned == (old(self).warned || r.warn),
            final(self).last_state@ == old(self).last_state@,
    {
        match source {
            Some(s) => {
                let fresh = match self.logged {
                    Some(l) => l != s,
                    None => true,
                };
                self.ever_seen = true;
                self.logged = Some(s);
                Look {
                    status: match s {
                        StateSource::Hermes => StateModStatus::Hermes,
                        StateSource::WpStateOut => StateModStatus::StateOutput,
                    },
                    log_source: fresh,
                    warn: false,
                }
            },
            None => {
                self.logged = None;
                let warn = !self.ever_seen && !self.warned && waited_s >= MOD_WARN_GRACE_S;
                if warn {
                    self.warned = true;
                }
                Look { status: StateModStatus::Missing, log_source: false, warn }
            },
        }
    }

    /// The state to pass on after a source was read, if it tells one.
    pub fn read(&mut self, source: StateSource, content: &str, captured: bool) -> (r: Option<
        &'static str,
    >)
        ensures
            opt_str(r) == content_state(source, content@, captured),
            final(self).last_state@ == match r {
                Some(s) => s@,
                None => old(self).last_state@,
            },
            final(self).logged == old(self).logged,
            final(self).ever_seen == old(self).ever_seen,
            final(self).warned == old(self).warned,
    {
        let state = match source {
            StateSource::Hermes => parse_hermes(content, captured),
            StateSource::WpStateOut => {
                let t = trim(content);
                if t.as_str().is_empty() {
                    None
                } else {
                    Some(to_game_state(t.as_str(), captured))
                }
            },
        };
        if let Some(s) = state {
            self.last_state = s.to_owned();
        }
        state
    }
}

/// The state in the content of a source; an empty file tells none.
pub open spec fn content_state(source: StateSource, content: Seq<char>, captured: bool) -> Option<
    Seq<char>,
> {
    let t = trimmed(content);
    match source {
        StateSource::Hermes => if t.len() == 0 || json_text(t) is None {
            None
        } else {
            hermes_state_of(json_text(t)->0, captured)
        },
        StateSource::WpStateOut => if t.len() == 0 {
            None
        } else {
            Some(game_state_of(t, captured))
        },
    }
}

// ---------------------------------------------------------------------------
// Laws
// ---------------------------------------------------------------------------

/// A state is one of a fixed few.
pub open spec fn is_state(s: Seq<char>) -> bool {
    s == "wall"@ || s == "title"@ || s == "waiting"@ || s == "generating"@ || s
        == "inworld,cursor_grabbed"@ || s == "inworld,cursor_free"@
}

/// Whatever a source holds, the state that comes out is one of the known ones.
pub proof fn law_states_are_known(source: StateSource, content: Seq<char>, captured: bool)
    ensures
        content_state(source, content, captured) matches Some(s) ==> is_state(s),
{
}

/// A stale or foreign heartbeat is no source, however the state file looks, and
/// a state file from before the load is none either.
pub proof fn law_stale_files_are_no_source(f: Found, pid: int, now_ms: int, load: i128)
    requires
        !f.wpstateout || f.wpstateout_time is None || f.wpstateout_time->0 < load,
        f.alive is None || be64(f.alive->0@, 0) != pid || now_ms - be64(f.alive->0@, 8)
            >= HERMES_STALE_MS || be64(f.alive->0@, 8) - now_ms >= HERMES_STALE_MS,
    ensures
        live_source(f, pid, now_ms, Some(load)) is None,
{
}

/// The report `j` shows a screen of the class `class`.
pub open spec fn shows_screen(j: Json, class: Seq<char>) -> bool {
    exists|s: Json| #[trigger] holds(j, "screen"@, s) && holds_text(s, "class"@, class)
}

/// The report `j` tells of no screen: it holds none, or one without a class.
pub open spec fn shows_no_screen(j: Json) -> bool {
    lacks(j, "screen"@) || exists|s: Json| #[trigger]
        holds(j, "screen"@, s) && (!(s is Object) || lacks(s, "class"@))
}

proof fn lemma_screen_class(j: Json, class: Seq<char>)
    ensures
        shows_screen(j, class) ==> j is Object && screen_class(j) == class,
        shows_no_screen(j) ==> screen_class(j).len() == 0,
{
    if shows_screen(j, class) {
        let s = choose|s: Json| #[trigger]
            holds(j, "screen"@, s) && holds_text(s, "class"@, class);
        law_field_is_found(j, "screen"@, s);
        let c = choose|c: String| #[trigger] holds(s, "class"@, Json::Str(c)) && c@ == class;
        law_field_is_found(s, "class"@, Json::Str(c));
    }
    if shows_no_screen(j) {
        law_field_is_found(j, "screen"@, j);
        if !lacks(j, "screen"@) {
            let s = choose|s: Json| #[trigger]
                holds(j, "screen"@, s) && (!(s is Object) || lacks(s, "class"@));
            law_field_is_found(j, "screen"@, s);
            law_field_is_found(s, "class"@, s);
        }
    }
}

/// The texts of the screens and states that the reports use are different.
proof fn lemma_state_texts()
    ensures
        "net.minecraft.class_3928"@.len() == 24,
        "me.contaria.seedqueue.gui.wall.SeedQueueWallScreen"@.len() == 50,
        "me.contaria.seedqueue.gui.wall.SeedQueuePreview"@.len() == 47,
{
    reveal_strlit("net.minecraft.class_3928");
    reveal_strlit("me.contaria.seedqueue.gui.wall.SeedQueueWallScreen");
    reveal_strlit("me.contaria.seedqueue.gui.wall.SeedQueuePreview");
}

/// A report that shows the loading screen means that a world is generated, and
/// one that shows the wall or its preview means the wall, whatever else it
/// holds and wherever the pointer is.
pub proof fn law_screens_decide(j: Json, captured: bool)
    ensures
        shows_screen(j, "net.minecraft.class_3928"@) ==> hermes_state_of(j, captured) == Some(
            "generating"@,
        ),
        shows_screen(j, "me.contaria.seedqueue.gui.wall.SeedQueueWallScreen"@) || shows_screen(
            j,
            "me.contaria.seedqueue.gui.wall.SeedQueuePreview"@,
        ) ==> hermes_state_of(j, captured) == Some("wall"@),
        !(j is Object) ==> hermes_state_of(j, captured) is None,
{
    lemma_state_texts();
    lemma_screen_class(j, "net.minecraft.class_3928"@);
    lemma_screen_class(j, "me.contaria.seedqueue.gui.wall.SeedQueueWallScreen"@);
    lemma_screen_class(j, "me.contaria.seedqueue.gui.wall.SeedQueuePreview"@);
}

/// With any other screen, and with none, a world that is told means that the
/// player is in it, with the pointer grabbed or free as the game has it; a world
/// that is null or not told means the title screen.
pub proof fn law_world_decides(j: Json, class: Seq<char>, world: Json)
    requires
        j is Object,
        shows_no_screen(j) || shows_screen(j, class),
        class != "net.minecraft.class_3928"@,
        class != "me.contaria.seedqueue.gui.wall.SeedQueueWallScreen"@,
        class != "me.contaria.seedqueue.gui.wall.SeedQueuePreview"@,
    ensures
        holds(j, "world"@, world) && !(world is Null) ==> hermes_state_of(j, true) == Some(
            "inworld,cursor_grabbed"@,
        ) && hermes_state_of(j, false) == Some("inworld,cursor_free"@),
        holds(j, "world"@, Json::Null) || lacks(j, "world"@) ==> hermes_state_of(j, true) == Some(
            "title"@,
        ) && hermes_state_of(j, false) == Some("title"@),
{
    lemma_state_texts();
    lemma_screen_class(j, class);
    law_field_is_found(j, "world"@, world);
    law_field_is_found(j, "world"@, Json::Null);
}

/// What the state file tells is what its JSON means, however it is blanked; a
/// text without content, or that is no JSON, tells nothing.
pub proof fn law_report_is_read(content: Seq<char>, captured: bool, j: Json)
    ensures
        trimmed(content).len() > 0 && json_text(trimmed(content)) == Some(j) ==> content_state(
            StateSource::Hermes,
            content,
            captured,
        ) == hermes_state_of(j, captured),
        json_text(trimmed(content)) is None || trimmed(content).len() == 0 ==> content_state(
            StateSource::Hermes,
            content,
            captured,
        ) is None,
{
}

proof fn lemma_tag(tag: Seq<char>, rest: Seq<char>)
    requires
        tag.len() > 0,
        forall|i: int| 0 <= i < tag.len() ==> #[trigger] tag[i] != ',',
        trimmed(tag) == tag,
    ensures
        state_tag(tag) == tag,
        state_tag(tag + seq![','] + rest) == tag,
{
    lemma_find_from(tag, seq![','], 0);
    if let Some(i) = find_from(tag, seq![','], 0) {
        assert(tag.subrange(i, i + 1)[0] == tag[i]);
    }
    let s = tag + seq![','] + rest;
    let n = tag.len() as int;
    lemma_find_from(s, seq![','], 0);
    assert(s.subrange(n, n + 1) =~= seq![',']);
    assert(crate::text::matches_at(s, seq![','], n));
    if let Some(i) = find_from(s, seq![','], 0) {
        assert(s.subrange(i, i + 1)[0] == s[i]);
        if i < n {
            assert(s[i] == tag[i]);
        }
    }
    assert(s.take(n) =~= tag);
}

/// A line of the state file means what stands in front of its first comma: the
/// wall, waiting, generating also while previewing, and being in a world with the
/// pointer as the game has it. Anything else means the title screen.
pub proof fn law_state_lines(rest: Seq<char>, captured: bool, other: Seq<char>)
    ensures
        game_state_of("wall"@, captured) == "wall"@,
        game_state_of("title"@, captured) == "title"@,
        game_state_of("waiting"@, captured) == "waiting"@,
        game_state_of("generating"@ + seq![','] + rest, captured) == "generating"@,
        game_state_of("previewing"@ + seq![','] + rest, captured) == "generating"@,
        game_state_of("inworld"@ + seq![','] + rest, true) == "inworld,cursor_grabbed"@,
        game_state_of("inworld"@ + seq![','] + rest, false) == "inworld,cursor_free"@,
        state_tag(other) != "wall"@ && state_tag(other) != "waiting"@ && state_tag(other)
            != "generating"@ && state_tag(other) != "previewing"@ && state_tag(other) != "inworld"@
            ==> game_state_of(other, captured) == "title"@,
{
    reveal_strlit("wall");
    reveal_strlit("title");
    reveal_strlit("waiting");
    reveal_strlit("generating");
    reveal_strlit("previewing");
    reveal_strlit("inworld");
    assert("wall"@.len() == 4 && "title"@.len() == 5 && "waiting"@.len() == 7);
    assert("generating"@.len() == 10 && "previewing"@.len() == 10 && "inworld"@.len() == 7);
    assert("waiting"@[0] != "inworld"@[0] && "generating"@[0] != "previewing"@[0]);
    assert(trimmed("wall"@) == "wall"@);
    assert(trimmed("title"@) == "title"@);
    assert(trimmed("waiting"@) == "waiting"@);
    assert(trimmed("generating"@) == "generating"@);
    assert(trimmed("previewing"@) == "previewing"@);
    assert(trimmed("inworld"@) == "inworld"@);
    lemma_tag("wall"@, rest);
    lemma_tag("title"@, rest);
    lemma_tag("waiting"@, rest);
    lemma_tag("generating"@, rest);
    lemma_tag("previewing"@, rest);
    lemma_tag("inworld"@, rest);
}

/// A source that is kept up is used: Hermes before the state file, while its own
/// process beats within three seconds; else the state file that was written since
/// the load.
pub proof fn law_live_sources(f: Found, pid: int, now_ms: int, load: i128, age: int)
    ensures
        f.hermes && f.alive is Some && f.alive->0@.len() >= 16 && be64(f.alive->0@, 0) == pid
            && be64(f.alive->0@, 8) == now_ms - age && -3000 < age < 3000 ==> live_source(
            f,
            pid,
            now_ms,
            Some(load),
        ) == Some(StateSource::Hermes),
        (!f.hermes || f.alive is None) && f.wpstateout && f.wpstateout_time is Some
            && f.wpstateout_time->0 >= load ==> live_source(f, pid, now_ms, Some(load)) == Some(
            StateSource::WpStateOut,
        ),
        (!f.hermes || f.alive is None) && f.wpstateout ==> live_source(f, pid, now_ms, None)
            == Some(StateSource::WpStateOut),
        f.alive is Some && be64(f.alive->0@, 8) == now_ms - age && (age >= 3000 || age <= -3000)
            ==> live_source(f, pid, now_ms, Some(load)) != Some(StateSource::Hermes),
{
}

/// The heartbeat's numbers have their high byte first.
pub proof fn law_heartbeat_bytes(b: Seq<u8>, i: int)
    requires
        0 <= i,
        i + 8 <= b.len(),
    ensures
        be64(b, i) == b[i + 7] + 0x100 * b[i + 6] + 0x1_0000 * b[i + 5] + 0x100_0000 * b[i + 4]
            + 0x1_0000_0000 * b[i + 3] + 0x100_0000_0000 * b[i + 2] + 0x1_0000_0000_0000 * b[i + 1]
            + 0x100_0000_0000_0000 * b[i],
{
}

/// Each source has its own file in the game's directory.
pub proof fn law_state_files(s: &StateSource, path: &'static str, label: &'static str)
    requires
        call_ensures(StateSource::path, (s,), path),
        call_ensures(StateSource::label, (s,), label),
    ensures
        *s == StateSource::Hermes ==> path@ == "hermes/state.json"@ && label@ == path@,
        *s == StateSource::WpStateOut ==> path@ == "wpstateout.txt"@ && label@ == path@
            + " (State Output)"@,
{
    reveal_strlit("wpstateout.txt");
    reveal_strlit("wpstateout.txt (State Output)");
    reveal_strlit(" (State Output)");
    assert("wpstateout.txt (State Output)"@ =~= "wpstateout.txt"@ + " (State Output)"@);
}

} // verus!
