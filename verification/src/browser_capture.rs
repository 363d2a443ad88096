//! Browser overlays: which helper processes run, the commands that they are
//! sent, and the frames that they send back.

use crate::text::{has_text, push_int, push_nat, push_text, same_text, to_chars};
use vstd::prelude::*;
use vstd::string::*;

verus! {

use crate::cursor_image::le32;
use crate::nbb_format::{integers_from, law_numbers_in_a_text};
use crate::text::{contains, decimal, decimal_nat, texts};

/// A picture that was captured: four bytes per pixel.
pub struct CapturedFrame {
    pub pixels: Vec<u8>,
    pub width: u32,
    pub height: u32,
}

/// A configured browser overlay.
#[derive(Clone, Debug)]
pub struct BrowserOverlayConfig {
    pub name: String,
    pub url: String,
    pub custom_css: String,
    pub width: i32,
    pub height: i32,
    pub fps: i32,
}

/// What a helper process was told last, and the last frame that it sent.
pub struct BrowserSession {
    pub key: String,
    pub url: String,
    pub css: String,
    pub width: i32,
    pub height: i32,
    pub fps: i32,
    pub latest: Option<CapturedFrame>,
}

// ---------------------------------------------------------------------------
// Commands
// ---------------------------------------------------------------------------

/// One character inside a quoted text.
pub open spec fn escaped_char(c: char) -> Seq<char> {
    if c == '\\' {
        seq!['\\', '\\']
    } else if c == '"' {
        seq!['\\', '"']
    } else {
        seq![c]
    }
}

/// A text inside quotes: backslashes and quotes have a backslash in front.
pub open spec fn escaped(s: Seq<char>) -> Seq<char>
    decreases s.len(),
{
    if s.len() == 0 {
        Seq::empty()
    } else {
        escaped(s.drop_last()) + escaped_char(s.last())
    }
}

/// A text inside quotes.
pub fn escape(s: &str) -> (r: String)
    ensures
        r@ == escaped(s@),
{
    let v = to_chars(s);
    let mut out: String = String::new();
    let mut i: usize = 0;
    while i < v.len()
        invariant
            i <= v@.len(),
            v@ == s@,
            out@ == escaped(v@.take(i as int)),
        decreases v.len() - i,
    {
        let c = v[i];
        if c == '\\' || c == '"' {
            out.push('\\');
        }
        out.push(c);
        i += 1;
        proof {
            let t = v@.take(i as int);
            assert(t.drop_last() == v@.take(i - 1));
            assert(t.last() == c);
            assert(out@ == escaped(t));
        }
    }
    assert(v@.take(i as int) == v@);
    out
}

pub open spec fn navigate_text(url: Seq<char>) -> Seq<char> {
    "{\"cmd\":\"navigate\",\"url\":\""@ + escaped(url) + "\"}"@
}

pub open spec fn css_text(css: Seq<char>) -> Seq<char> {
    "{\"cmd\":\"inject_css\",\"css\":\""@ + escaped(css) + "\"}"@
}

pub open spec fn resize_text(w: int, h: int) -> Seq<char> {
    "{\"cmd\":\"resize\",\"width\":"@ + decimal(w) + ",\"height\":"@ + decimal(h) + "}"@
}

pub open spec fn fps_text(fps: int) -> Seq<char> {
    "{\"cmd\":\"set_fps\",\"fps\":"@ + decimal(fps) + "}"@
}

/// The command to show a page.
pub fn navigate_command(url: &str) -> (r: String)
    ensures
        r@ == navigate_text(url@),
{
    let mut s: String = "{\"cmd\":\"navigate\",\"url\":\"".to_owned();
    s.append(escape(url).as_str());
    s.append("\"}");
    s
}

/// The command to add a style sheet.
pub fn css_command(css: &str) -> (r: String)
    ensures
        r@ == css_text(css@),
{
    let mut s: String = "{\"cmd\":\"inject_css\",\"css\":\"".to_owned();
    s.append(escape(css).as_str());
    s.append("\"}");
    s
}

/// The command to change the size.
pub fn resize_command(width: i32, height: i32) -> (r: String)
    ensures
        r@ == resize_text(width as int, height as int),
{
    let mut s: String = "{\"cmd\":\"resize\",\"width\":".to_owned();
    push_int(&mut s, width as i64);
    s.append(",\"height\":");
    push_int(&mut s, height as i64);
    s.append("}");
    s
}

/// The command to change the frame rate.
pub fn fps_command(fps: i32) -> (r: String)
    ensures
        r@ == fps_text(fps as int),
{
    let mut s: String = "{\"cmd\":\"set_fps\",\"fps\":".to_owned();
    push_int(&mut s, fps as i64);
    s.append("}");
    s
}

/// The command to end.
pub fn close_command() -> (r: &'static str)
    ensures
        r@ == "{\"cmd\":\"close\"}"@,
{
    "{\"cmd\":\"close\"}"
}

/// The commands that a new helper gets: size, frame rate, style sheet if there
/// is one, page.
pub open spec fn start_commands(c: BrowserOverlayConfig) -> Seq<Seq<char>> {
    let head = seq![resize_text(c.width as int, c.height as int), fps_text(c.fps as int)];
    let css = if c.custom_css@.len() > 0 {
        seq![css_text(c.custom_css@)]
    } else {
        Seq::empty()
    };
    head + css + seq![navigate_text(c.url@)]
}

/// The commands that bring a running helper to its configuration: one for each
/// thing that differs.
pub open spec fn change_commands(s: BrowserSession, c: BrowserOverlayConfig) -> Seq<Seq<char>> {
    let page = if s.url@ != c.url@ {
        seq![navigate_text(c.url@)]
    } else {
        Seq::empty()
    };
    let css = if s.css@ != c.custom_css@ {
        seq![css_text(c.custom_css@)]
    } else {
        Seq::empty()
    };
    let size = if s.width != c.width || s.height != c.height {
        seq![resize_text(c.width as int, c.height as int)]
    } else {
        Seq::empty()
    };
    let fps = if s.fps != c.fps {
        seq![fps_text(c.fps as int)]
    } else {
        Seq::empty()
    };
    page + css + size + fps
}

/// The helper was told all of its configuration.
pub open spec fn follows(s: BrowserSession, c: BrowserOverlayConfig) -> bool {
    s.url@ == c.url@ && s.css@ == c.custom_css@ && s.width == c.width && s.height == c.height
        && s.fps == c.fps
}

// ---------------------------------------------------------------------------
// Sessions
// ---------------------------------------------------------------------------

/// The key of the `i`-th overlay: its name, or one made from its place.
pub open spec fn session_key_of(i: nat, name: Seq<char>) -> Seq<char> {
    if name.len() == 0 {
        "__browser_"@ + decimal_nat(i)
    } else {
        name
    }
}

pub fn session_key(i: usize, name: &str) -> (r: String)
    ensures
        r@ == session_key_of(i as nat, name@),
{
    if name.is_empty() {
        let mut s: String = "__browser_".to_owned();
        push_nat(&mut s, i as u64);
        s
    } else {
        name.to_owned()
    }
}

/// Some overlay with a page has the key `k`.
pub open spec fn wanted(configs: Seq<BrowserOverlayConfig>, k: Seq<char>) -> bool {
    exists|i: int|
        0 <= i < configs.len() && (#[trigger] configs[i]).url@.len() > 0 && session_key_of(
            i as nat,
            configs[i].name@,
        ) == k
}

/// The running helpers.
pub struct BrowserCaptureManager {
    pub sessions: Vec<BrowserSession>,
}

/// The first session from `i` on with the key `k`.
pub open spec fn session_at(v: Seq<BrowserSession>, k: Seq<char>, i: int) -> Option<int>
    decreases v.len() - i,
{
    if i < 0 || i >= v.len() {
        None
    } else if v[i].key@ == k {
        Some(i)
    } else {
        session_at(v, k, i + 1)
    }
}

/// No key occurs twice.
pub open spec fn distinct_keys(v: Seq<BrowserSession>) -> bool {
    forall|i: int, j: int|
        0 <= i < j < v.len() ==> (#[trigger] v[i]).key@ != (#[trigger] v[j]).key@
}

/// The sessions but for the one with the key `k`.
pub open spec fn without_key(v: Seq<BrowserSession>, k: Seq<char>) -> Seq<BrowserSession> {
    match session_at(v, k, 0) {
        Some(i) => v.remove(i),
        None => v,
    }
}

/// The last frame of the session with the key `k`.
pub open spec fn frame_of(v: Seq<BrowserSession>, k: Seq<char>) -> Option<CapturedFrame> {
    match session_at(v, k, 0) {
        Some(i) => v[i].latest,
        None => None,
    }
}

proof fn lemma_session_at(v: Seq<BrowserSession>, k: Seq<char>, i: int)
    requires
        0 <= i,
    ensures
        match session_at(v, k, i) {
            Some(n) => i <= n < v.len() && v[n].key@ == k && forall|j: int|
                i <= j < n ==> (#[trigger] v[j]).key@ != k,
            None => forall|j: int| i <= j < v.len() ==> (#[trigger] v[j]).key@ != k,
        },
    decreases v.len() - i,
{
    if i < v.len() && v[i].key@ != k {
        lemma_session_at(v, k, i + 1);
    }
}

proof fn lemma_same_keys(v: Seq<BrowserSession>, w: Seq<BrowserSession>, k: Seq<char>, i: int)
    requires
        0 <= i,
        v.len() == w.len(),
        forall|j: int| 0 <= j < v.len() ==> (#[trigger] v[j]).key@ == (#[trigger] w[j]).key@,
    ensures
        session_at(v, k, i) == session_at(w, k, i),
    decreases v.len() - i,
{
    if i < v.len() {
        assert(v[i].key@ == w[i].key@);
        lemma_same_keys(v, w, k, i + 1);
    }
}

/// Stopping a session leaves none with its key, and the others are found as
/// before.
pub proof fn law_stopped_session_is_gone(v: Seq<BrowserSession>, k: Seq<char>, other: Seq<char>)
    requires
        distinct_keys(v),
    ensures
        distinct_keys(without_key(v, k)),
        session_at(without_key(v, k), k, 0) is None,
        other != k ==> frame_of(without_key(v, k), other) == frame_of(v, other),
{
    let w = without_key(v, k);
    lemma_session_at(v, k, 0);
    lemma_session_at(v, other, 0);
    lemma_session_at(w, k, 0);
    lemma_session_at(w, other, 0);
    if let Some(n) = session_at(v, k, 0) {
        assert forall|j: int| 0 <= j < w.len() implies #[trigger] w[j] == v[if j < n {
            j
        } else {
            j + 1
        }] by {}
        if let Some(m) = session_at(v, other, 0) {
            if other != k {
                let at = if m < n {
                    m
                } else {
                    m - 1
                };
                assert(w[at] == v[m]);
            }
        }
    }
}

/// The keys of the sessions that no overlay wants, in order.
pub open spec fn stale_keys(
    v: Seq<BrowserSession>,
    configs: Seq<BrowserOverlayConfig>,
) -> Seq<Seq<char>>
    decreases v.len(),
{
    if v.len() == 0 {
        Seq::empty()
    } else {
        let rest = stale_keys(v.drop_last(), configs);
        if wanted(configs, v.last().key@) {
            rest
        } else {
            rest.push(v.last().key@)
        }
    }
}

/// What an overlay asks for.
pub enum SyncStep {
    /// It has no page.
    Skip,
    /// Send these commands to the helper with this key.
    Send { key: String, commands: Vec<String> },
    /// Start a helper, send these commands, and report it.
    Start { key: String, commands: Vec<String> },
}

impl BrowserCaptureManager {
    pub fn new() -> (r: BrowserCaptureManager)
        ensures
            r.sessions@.len() == 0,
            distinct_keys(r.sessions@),
    {
        BrowserCaptureManager { sessions: Vec::new() }
    }

    fn find(&self, key: &str) -> (r: Option<usize>)
        ensures
            r is Some <==> session_at(self.sessions@, key@, 0) is Some,
            r matches Some(i) ==> i as int == session_at(self.sessions@, key@, 0)->0 && i
                < self.sessions@.len() && self.sessions@[i as int].key@ == key@,
    {
        let mut i: usize = 0;
        while i < self.sessions.len()
            invariant
                i <= self.sessions@.len(),
                session_at(self.sessions@, key@, 0) == session_at(
                    self.sessions@,
                    key@,
                    i as int,
                ),
            decreases self.sessions.len() - i,
        {
            if same_text(self.sessions[i].key.as_str(), key) {
                return Some(i);
            }
            i += 1;
        }
        None
    }

    /// The keys of the helpers to stop: those that no overlay with a page
    /// wants.
    pub fn stale_sessions(&self, configs: &Vec<BrowserOverlayConfig>) -> (r: Vec<String>)
        ensures
            texts(r@) == stale_keys(self.sessions@, configs@),
    {
        let mut out: Vec<String> = Vec::new();
        let mut i: usize = 0;
        assert(texts(out@) =~= stale_keys(self.sessions@.take(0), configs@));
        while i < self.sessions.len()
            invariant
                i <= self.sessions@.len(),
                texts(out@) == stale_keys(self.sessions@.take(i as int), configs@),
            decreases self.sessions.len() - i,
        {
            assert(self.sessions@.take(i + 1).drop_last() == self.sessions@.take(i as int));
            if !is_wanted(configs, self.sessions[i].key.as_str()) {
                push_text(&mut out, self.sessions[i].key.clone());
            }
            i += 1;
        }
        assert(self.sessions@.take(i as int) == self.sessions@);
        out
    }

    /// Drops a session; the result says whether there was one, whose helper is
    /// to be closed.
    pub fn stop_session(&mut self, key: &str) -> (r: bool)
        requires
            distinct_keys(old(self).sessions@),
        ensures
            r == session_at(old(self).sessions@, key@, 0) is Some,
            final(self).sessions@ == without_key(old(self).sessions@, key@),
            distinct_keys(final(self).sessions@),
    {
        proof {
            law_stopped_session_is_gone(self.sessions@, key@, key@);
        }
        match self.find(key) {
            Some(i) => {
                let gone = self.sessions.remove(i);
                true
            },
            None => false,
        }
    }

    /// Brings the session of the `i`-th overlay in step with its configuration.
    pub fn sync_session(&mut self, i: usize, cfg: &BrowserOverlayConfig) -> (r: SyncStep)
        requires
            distinct_keys(old(self).sessions@),
        ensures
            distinct_keys(final(self).sessions@),
            ({
                let k = session_key_of(i as nat, cfg.name@);
                let before = old(self).sessions@;
                let after = final(self).sessions@;
                if cfg.url@.len() == 0 {
                    r is Skip && after == before
                } else {
                    match session_at(before, k, 0) {
                        Some(n) => {
                            &&& r matches SyncStep::Send { key, commands } && key@ == k && texts(
                                commands@,
                            ) == change_commands(before[n], *cfg)
                            &&& after.len() == before.len()
                            &&& forall|j: int|
                                0 <= j < before.len() && j != n ==> #[trigger] after[j]
                                    == before[j]
                            &&& follows(after[n], *cfg)
                            &&& after[n].key == before[n].key
                            &&& after[n].latest == before[n].latest
                        },
                        None => {
                            &&& r matches SyncStep::Start { key, commands } && key@ == k && texts(
                                commands@,
                            ) == start_commands(*cfg)
                            &&& after == before
                        },
                    }
                }
            }),
    {
        if cfg.url.as_str().is_empty() {
            return SyncStep::Skip;
        }
        let key = session_key(i, cfg.name.as_str());
        let mut commands: Vec<String> = Vec::new();
        assert(texts(commands@) =~= Seq::<Seq<char>>::empty());
        match self.find(key.as_str()) {
            Some(n) => {
                let ghost s = self.sessions@[n as int];
                if !same_text(self.sessions[n].url.as_str(), cfg.url.as_str()) {
                    push_text(&mut commands, navigate_command(cfg.url.as_str()));
                }
                if !same_text(self.sessions[n].css.as_str(), cfg.custom_css.as_str()) {
                    push_text(&mut commands, css_command(cfg.custom_css.as_str()));
                }
                if self.sessions[n].width != cfg.width || self.sessions[n].height != cfg.height {
                    push_text(&mut commands, resize_command(cfg.width, cfg.height));
                }
                if self.sessions[n].fps != cfg.fps {
                    push_text(&mut commands, fps_command(cfg.fps));
                }
                assert(texts(commands@) =~= change_commands(s, *cfg));
                let mut session = self.sessions.swap_remove(n);
                session.url = cfg.url.clone();
                session.css = cfg.custom_css.clone();
                session.width = cfg.width;
                session.height = cfg.height;
                session.fps = cfg.fps;
                self.put_back(n, session);
                SyncStep::Send { key, commands }
            },
            None => {
                push_text(&mut commands, resize_command(cfg.width, cfg.height));
                push_text(&mut commands, fps_command(cfg.fps));
                if !cfg.custom_css.as_str().is_empty() {
                    push_text(&mut commands, css_command(cfg.custom_css.as_str()));
                }
                push_text(&mut commands, navigate_command(cfg.url.as_str()));
                assert(texts(commands@) =~= start_commands(*cfg));
                SyncStep::Start { key, commands }
            },
        }
    }

    /// Undoes a `swap_remove` at `n`, with a session in the freed place.
    fn put_back(&mut self, n: usize, session: BrowserSession)
        requires
            n <= old(self).sessions@.len(),
        ensures
            n < old(self).sessions@.len() ==> final(self).sessions@ == old(self).sessions@.update(
                n as int,
                session,
            ).push(old(self).sessions@[n as int]),
            n == old(self).sessions@.len() ==> final(self).sessions@ == old(self).sessions@.push(
                session,
            ),
    {
        self.sessions.push(session);
        let last: usize = self.sessions.len() - 1;
        if n < last {
            let moved = self.sessions.swap_remove(n);
            self.sessions.push(moved);
            assert(self.sessions@ =~= old(self).sessions@.update(n as int, session).push(
                old(self).sessions@[n as int],
            ));
        }
    }

    /// Notes a helper that was started for an overlay and told its
    /// configuration. It takes the place of one with the same key.
    pub fn started(&mut self, key: String, cfg: &BrowserOverlayConfig)
        requires
            distinct_keys(old(self).sessions@),
        ensures
            final(self).sessions@.len() == without_key(old(self).sessions@, key@).len() + 1,
            final(self).sessions@.drop_last() == without_key(old(self).sessions@, key@),
            ({
                let s = final(self).sessions@.last();
                s.key@ == key@ && follows(s, *cfg) && s.latest is None
            }),
            distinct_keys(final(self).sessions@),
    {
        let replaced = self.stop_session(key.as_str());
        let ghost before = self.sessions@;
        proof {
            law_stopped_session_is_gone(old(self).sessions@, key@, key@);
            lemma_session_at(before, key@, 0);
        }
        let s = BrowserSession {
            key,
            url: cfg.url.clone(),
            css: cfg.custom_css.clone(),
            width: cfg.width,
            height: cfg.height,
            fps: cfg.fps,
            latest: None,
        };
        self.sessions.push(s);
        assert(self.sessions@.drop_last() =~= before);
    }

    /// Notes a frame that a helper sent. No other session changes.
    pub fn received(&mut self, key: &str, frame: CapturedFrame)
        requires
            distinct_keys(old(self).sessions@),
        ensures
            match session_at(old(self).sessions@, key@, 0) {
                Some(n) => {
                    let s = old(self).sessions@[n];
                    &&& final(self).sessions@ == old(self).sessions@.update(
                        n,
                        (BrowserSession { latest: Some(frame), ..s }),
                    )
                    &&& frame_of(final(self).sessions@, key@) == Some(frame)
                },
                None => final(self).sessions@ == old(self).sessions@,
            },
            forall|k: Seq<char>|
                k != key@ ==> #[trigger] frame_of(final(self).sessions@, k) == frame_of(
                    old(self).sessions@,
                    k,
                ),
            distinct_keys(final(self).sessions@),
    {
        let ghost before = self.sessions@;
        match self.find(key) {
            Some(n) => {
                let mut session = self.sessions.swap_remove(n);
                session.latest = Some(frame);
                self.put_back(n, session);
                proof {
                    let s = before[n as int];
                    assert(self.sessions@ =~= before.update(
                        n as int,
                        BrowserSession { latest: Some(frame), ..s },
                    ));
                    lemma_same_keys(before, self.sessions@, key@, 0);
                    assert forall|k: Seq<char>| k != key@ implies #[trigger] frame_of(
                        self.sessions@,
                        k,
                    ) == frame_of(before, k) by {
                        lemma_same_keys(before, self.sessions@, k, 0);
                        lemma_session_at(before, k, 0);
                    }
                }
            },
            None => {},
        }
    }

    /// The last frame of a helper.
    pub fn latest_frame(&self, name: &str) -> (r: Option<&CapturedFrame>)
        ensures
            match frame_of(self.sessions@, name@) {
                Some(f) => r matches Some(g) && *g == f,
                None => r is None,
            },
    {
        match self.find(name) {
            Some(i) => match &self.sessions[i].latest {
                Some(f) => Some(f),
                None => None,
            },
            None => None,
        }
    }
}

/// Whether some overlay with a page has this key.
fn is_wanted(configs: &Vec<BrowserOverlayConfig>, key: &str) -> (r: bool)
    ensures
        r == wanted(configs@, key@),
{
    let mut i: usize = 0;
    while i < configs.len()
        invariant
            i <= configs@.len(),
            forall|j: int|
                0 <= j < i ==> !((#[trigger] configs@[j]).url@.len() > 0 && session_key_of(
                    j as nat,
                    configs@[j].name@,
                ) == key@),
        decreases configs.len() - i,
    {
        if !configs[i].url.as_str().is_empty() {
            let k = session_key(i, configs[i].name.as_str());
            if same_text(k.as_str(), key) {
                assert(configs@[i as int].url@.len() > 0);
                return true;
            }
        }
        i += 1;
    }
    false
}

// ---------------------------------------------------------------------------
// Frames
// ---------------------------------------------------------------------------

/// A frame is at most so many bytes long.
pub const MAX_FRAME_BYTES: u32 = 100_000_000;

/// The head of a frame: width, height, and the number of bytes that follow.
#[derive(Clone, Copy, Debug, PartialEq, Eq, Structural)]
pub struct FrameHeader {
    pub width: u32,
    pub height: u32,
    pub len: u32,
}

/// Reads the head of a frame; one without bytes or with too many is skipped.
pub fn frame_header(b: &[u8]) -> (r: Option<FrameHeader>)
    requires
        b@.len() == 12,
    ensures
        r is Some <==> 0 < le32(b@, 8) <= MAX_FRAME_BYTES,
        r matches Some(h) ==> h.width == le32(b@, 0) && h.height == le32(b@, 4) && h.len == le32(
            b@,
            8,
        ),
{
    let width: u32 = b[0] as u32 + 256 * b[1] as u32 + 65536 * b[2] as u32 + 16777216 * b[3] as u32;
    let height: u32 = b[4] as u32 + 256 * b[5] as u32 + 65536 * b[6] as u32 + 16777216
        * b[7] as u32;
    let len: u32 = b[8] as u32 + 256 * b[9] as u32 + 65536 * b[10] as u32 + 16777216
        * b[11] as u32;
    if len == 0 || len > MAX_FRAME_BYTES {
        None
    } else {
        Some(FrameHeader { width, height, len })
    }
}

// ---------------------------------------------------------------------------
// The helper's environment
// ---------------------------------------------------------------------------

/// The module path for the helper: the one for encrypted pages is added behind
/// what is set, unless it is there already.
pub fn gio_modules(existing: &str, tls_path: &str) -> (r: Option<String>)
    ensures
        r is Some <==> !contains(existing@, "glib-networking"@),
        r matches Some(v) ==> v@ == if existing@.len() == 0 {
            tls_path@
        } else {
            existing@ + ":"@ + tls_path@
        },
{
    if has_text(existing, "glib-networking") {
        return None;
    }
    if existing.is_empty() {
        return Some(tls_path.to_owned());
    }
    let mut s: String = existing.to_owned();
    s.append(":");
    s.append(tls_path);
    Some(s)
}

/// The directories in which the modules for encrypted pages are looked for
/// first.
pub fn gio_candidates(home: Option<String>) -> (r: Vec<String>)
    ensures
        texts(r@) == match home {
            Some(h) => seq![
                "/run/current-system/sw/lib/gio/modules"@,
                h@ + "/.nix-profile/lib/gio/modules"@,
            ],
            None => seq!["/run/current-system/sw/lib/gio/modules"@],
        },
{
    let mut out: Vec<String> = Vec::new();
    push_text(&mut out, "/run/current-system/sw/lib/gio/modules".to_owned());
    if let Some(h) = home {
        let mut p = h;
        p.append("/.nix-profile/lib/gio/modules");
        push_text(&mut out, p);
    }
    assert(texts(out@) =~= match home {
        Some(h) => seq![
            "/run/current-system/sw/lib/gio/modules"@,
            h@ + "/.nix-profile/lib/gio/modules"@,
        ],
        None => seq!["/run/current-system/sw/lib/gio/modules"@],
    });
    out
}

/// A package in the store that holds the modules for encrypted pages.
pub fn is_tls_package(name: &str) -> (r: bool)
    ensures
        r == (contains(name@, "glib-networking"@) && !contains(name@, ".drv"@)),
{
    has_text(name, "glib-networking") && !has_text(name, ".drv")
}

// ---------------------------------------------------------------------------
// Laws
// ---------------------------------------------------------------------------

/// What a reader makes of an escaped text: a backslash stands for the character
/// behind it.
pub open spec fn unescaped(s: Seq<char>) -> Seq<char>
    decreases s.len(),
{
    if s.len() == 0 {
        Seq::empty()
    } else if s[0] == '\\' && s.len() > 1 {
        seq![s[1]] + unescaped(s.subrange(2, s.len() as int))
    } else {
        seq![s[0]] + unescaped(s.subrange(1, s.len() as int))
    }
}

proof fn lemma_unescape_front(c: char, rest: Seq<char>)
    ensures
        unescaped(escaped_char(c) + rest) == seq![c] + unescaped(rest),
{
    let s = escaped_char(c) + rest;
    if c == '\\' || c == '"' {
        assert(s.subrange(2, s.len() as int) == rest);
    } else {
        assert(s.subrange(1, s.len() as int) == rest);
    }
}

proof fn lemma_escaped_front(s: Seq<char>)
    requires
        s.len() > 0,
    ensures
        escaped(s) == escaped_char(s[0]) + escaped(s.subrange(1, s.len() as int)),
    decreases s.len(),
{
    let tail = s.subrange(1, s.len() as int);
    if s.len() == 1 {
        assert(s.drop_last() == Seq::<char>::empty());
        assert(tail == Seq::<char>::empty());
        assert(escaped(s.drop_last()) == Seq::<char>::empty());
        assert(escaped(tail) == Seq::<char>::empty());
        assert(escaped(s) == escaped_char(s[0]) + escaped(tail));
    } else {
        lemma_escaped_front(s.drop_last());
        assert(s.drop_last().subrange(1, s.len() - 1) == tail.drop_last());
        assert(escaped(s) == escaped_char(s[0]) + escaped(tail.drop_last()) + escaped_char(
            s.last(),
        ));
        assert(tail.last() == s.last());
    }
}

/// A reader gets back what was escaped.
pub proof fn law_escape_round_trip(s: Seq<char>)
    ensures
        unescaped(escaped(s)) == s,
    decreases s.len(),
{
    if s.len() > 0 {
        let tail = s.subrange(1, s.len() as int);
        lemma_escaped_front(s);
        lemma_unescape_front(s[0], escaped(tail));
        law_escape_round_trip(tail);
        assert(seq![s[0]] + tail == s);
    }
}

/// A helper that follows its configuration is sent nothing.
pub proof fn law_in_step_sends_nothing(s: BrowserSession, c: BrowserOverlayConfig)
    requires
        follows(s, c),
    ensures
        change_commands(s, c).len() == 0,
{
}

/// Exactly the sessions that no overlay wants are stopped.
pub proof fn law_stale_sessions(
    v: Seq<BrowserSession>,
    configs: Seq<BrowserOverlayConfig>,
    k: Seq<char>,
)
    ensures
        stale_keys(v, configs).contains(k) <==> !wanted(configs, k) && exists|i: int|
            0 <= i < v.len() && (#[trigger] v[i]).key@ == k,
    decreases v.len(),
{
    if v.len() > 0 {
        let front = v.drop_last();
        law_stale_sessions(front, configs, k);
        let all = stale_keys(v, configs);
        let rest = stale_keys(front, configs);
        if rest.contains(k) {
            let n = choose|n: int| 0 <= n < rest.len() && rest[n] == k;
            assert(all[n] == k);
            let i = choose|i: int| 0 <= i < front.len() && (#[trigger] front[i]).key@ == k;
            assert(v[i].key@ == k);
        }
        if all.contains(k) && !rest.contains(k) {
            let n = choose|n: int| 0 <= n < all.len() && all[n] == k;
            if n < rest.len() {
                assert(rest[n] == k);
            }
            assert(v[v.len() - 1].key@ == k);
        }
        if !wanted(configs, k) && exists|i: int| 0 <= i < v.len() && (#[trigger] v[i]).key@ == k {
            let i = choose|i: int| 0 <= i < v.len() && (#[trigger] v[i]).key@ == k;
            if i < front.len() {
                assert(front[i].key@ == k);
            } else {
                assert(all[rest.len() as int] == k);
            }
        }
    }
}

/// A helper is told what changed and nothing else: the page, the style, the size,
/// the frame rate.
pub proof fn law_changes_are_sent(s: BrowserSession, c: BrowserOverlayConfig)
    ensures
        ({
            let v = change_commands(s, c);
            let n = |changed: bool|
                if changed {
                    1int
                } else {
                    0int
                };
            &&& s.url@ != c.url@ ==> v[0] == navigate_text(c.url@)
            &&& s.css@ != c.custom_css@ ==> v.contains(css_text(c.custom_css@))
            &&& s.width != c.width || s.height != c.height ==> v.contains(
                resize_text(c.width as int, c.height as int),
            )
            &&& s.fps != c.fps ==> v.last() == fps_text(c.fps as int)
            &&& v.len() == n(s.url@ != c.url@) + n(s.css@ != c.custom_css@) + n(
                s.width != c.width || s.height != c.height,
            ) + n(s.fps != c.fps)
        }),
{
    let v = change_commands(s, c);
    let a = if s.url@ != c.url@ {
        1int
    } else {
        0int
    };
    let b = if s.css@ != c.custom_css@ {
        1int
    } else {
        0int
    };
    if s.css@ != c.custom_css@ {
        assert(v[a] == css_text(c.custom_css@));
    }
    if s.width != c.width || s.height != c.height {
        assert(v[a + b] == resize_text(c.width as int, c.height as int));
    }
}

/// A new helper is told its size and frame rate first and its page last, with the
/// style in front of it where there is one.
pub proof fn law_start_order(c: BrowserOverlayConfig)
    ensures
        ({
            let v = start_commands(c);
            &&& v[0] == resize_text(c.width as int, c.height as int)
            &&& v[1] == fps_text(c.fps as int)
            &&& v.last() == navigate_text(c.url@)
            &&& c.custom_css@.len() == 0 ==> v.len() == 3
            &&& c.custom_css@.len() > 0 ==> v.len() == 4 && v[2] == css_text(c.custom_css@)
        }),
{
}

/// The commands carry what they are about: the numbers in their order, and the
/// page and the style as they are, once their escapes are taken back.
pub proof fn law_commands_carry_their_values(w: i32, h: i32, text: Seq<char>)
    ensures
        integers_from(resize_text(w as int, h as int), 0, 2) == seq![w as int, h as int],
        exists|e: Seq<char>|
            unescaped(e) == text && navigate_text(text) == #[trigger] (
            "{\"cmd\":\"navigate\",\"url\":\""@ + e + "\"}"@),
        exists|e: Seq<char>|
            unescaped(e) == text && css_text(text) == #[trigger] (
            "{\"cmd\":\"inject_css\",\"css\":\""@ + e + "\"}"@),
        fps_text(w as int) == "{\"cmd\":\"set_fps\",\"fps\":"@ + decimal(w as int) + "}"@,
{
    reveal_strlit("{\"cmd\":\"resize\",\"width\":");
    reveal_strlit(",\"height\":");
    reveal_strlit("}");
    law_numbers_in_a_text(
        "{\"cmd\":\"resize\",\"width\":"@,
        w as int,
        ",\"height\":"@,
        h as int,
        "}"@,
    );
    law_escape_round_trip(text);
    let e = escaped(text);
    assert(unescaped(e) == text && navigate_text(text)
        == "{\"cmd\":\"navigate\",\"url\":\""@ + e + "\"}"@);
    assert(unescaped(e) == text && css_text(text) == "{\"cmd\":\"inject_css\",\"css\":\""@ + e
        + "\"}"@);
}

/// A named overlay is known by its name, others by their place, each by its own.
pub proof fn law_session_keys(i: nat, k: nat, name: Seq<char>)
    ensures
        name.len() > 0 ==> session_key_of(i, name) == name,
        session_key_of(i, Seq::empty()) == session_key_of(k, Seq::empty()) ==> i == k,
{
    let (a, b) = (session_key_of(i, Seq::empty()), session_key_of(k, Seq::empty()));
    if a == b {
        let n = "__browser_"@.len() as int;
        assert(a.skip(n) =~= decimal_nat(i));
        assert(b.skip(n) =~= decimal_nat(k));
        crate::text::law_numbers_round_trip(i, k, 0);
    }
}

/// The head of a frame is its width, its height and its length, low bytes first;
/// a frame without bytes, or with too many, is none.
pub proof fn law_frame_heads(b: &[u8], r: Option<FrameHeader>)
    requires
        b@.len() == 12,
        call_ensures(frame_header, (b,), r),
    ensures
        ({
            let n = b@[8] + 0x100 * b@[9] + 0x1_0000 * b@[10] + 0x100_0000 * b@[11];
            &&& r is Some <==> 0 < n <= 100_000_000
            &&& r is Some ==> r->0.len == n && r->0.width == b@[0] + 0x100 * b@[1] + 0x1_0000
                * b@[2] + 0x100_0000 * b@[3] && r->0.height == b@[4] + 0x100 * b@[5] + 0x1_0000
                * b@[6] + 0x100_0000 * b@[7]
        }),
{
}

/// The modules for secure pages are added behind what is there, unless they are
/// there already.
pub proof fn law_modules_are_added(existing: &str, tls_path: &str, r: Option<String>)
    requires
        call_ensures(gio_modules, (existing, tls_path), r),
    ensures
        contains(existing@, "glib-networking"@) ==> r is None,
        existing@.len() == 0 && !contains(existing@, "glib-networking"@) ==> r is Some && r->0@
            == tls_path@,
        existing@.len() > 0 && !contains(existing@, "glib-networking"@) ==> r is Some && r->0@
            == existing@ + ":"@ + tls_path@,
{
}

/// A helper is told by name what to do; the size is its width, then its height. An
/// overlay without a name is called by its place.
pub proof fn law_commands_have_their_names(w: i32, h: i32, i: nat, r: &'static str)
    requires
        call_ensures(close_command, (), r),
    ensures
        r@ == "{\"cmd\":\"close\"}"@,
        resize_text(w as int, h as int) == "{\"cmd\":\"resize\",\"width\":"@ + decimal(w as int)
            + ",\"height\":"@ + decimal(h as int) + "}"@,
        session_key_of(i, Seq::empty()) == "__browser_"@ + decimal_nat(i),
{
}

/// The modules for encrypted pages are looked for in the system first and then in
/// the user's own profile; a package of them is one by its name, and its recipe is
/// none.
pub proof fn law_module_places(home: Option<String>, v: Vec<String>, name: &str, r: bool)
    requires
        call_ensures(gio_candidates, (home,), v),
        call_ensures(is_tls_package, (name,), r),
    ensures
        v@.len() > 0 && texts(v@)[0] == "/run/current-system/sw/lib/gio/modules"@,
        home is None ==> v@.len() == 1,
        home is Some ==> v@.len() == 2 && texts(v@)[1] == home->0@ + "/.nix-profile/lib/gio/modules"@,
        r <==> contains(name@, "glib-networking"@) && !contains(name@, ".drv"@),
{
    assert(texts(v@).len() == v@.len());
}

} // verus!
