//! The client of the Ninjabrain Bot's event streams: its life cycle, the
//! framing of server-sent events, and what it reads of the HTTP reply.

use crate::json::{parse_json, Json};
use crate::nbb_data::{
    apply_blind_event, apply_boat_event, apply_info_messages_event, apply_stronghold_event,
    clear_blind, clear_boat, clear_info_messages, clear_stronghold, read_stronghold_event,
    reset_nbb_data, stamp_update, NinjabrainData, StrongholdEvent, StrongholdMath,
};
use crate::text::{
    find_char, find_last, from_range, has_text, has_at, parse_hex, parse_unsigned, push_nat,
    push_text, same_text, split_lines, strip_bound, to_chars, to_lower, trim, trim_bounds,
};
use vstd::prelude::*;
use vstd::string::*;

verus! {

use crate::json::{holds_number, holds_text, json_text};
use crate::nbb_data::{
    after_boat, after_info, after_stronghold, blind_of, event_of, event_ok, law_boat_round_trip,
    no_blind, no_data, without_stronghold, DataView,
};
use crate::text::{
    contains, decimal_nat, is_white_space, law_numbers_round_trip, lemma_decimal_nat, find_from, hex_number, last_position, lemma_find_from, lines, lower,
    matches_at, strip_back, texts, trimmed, unsigned_value,
};

/// Milliseconds between two attempts to connect.
pub const RECONNECT_MS: u64 = 200;

/// Milliseconds that an attempt to connect may take.
pub const CONNECT_TIMEOUT_MS: u64 = 200;

/// Seconds that a read may wait; the bot can be silent for a while.
pub const READ_TIMEOUT_S: u64 = 30;

/// The number of event streams.
pub const STREAM_COUNT: usize = 4;

/// The name of a stream.
pub fn stream_name(idx: usize) -> (r: &'static str)
    requires
        idx < STREAM_COUNT,
    ensures
        r@ == match idx {
            0 => "stronghold"@,
            1 => "info"@,
            2 => "boat"@,
            _ => "blind"@,
        },
{
    match idx {
        0 => "stronghold",
        1 => "info",
        2 => "boat",
        _ => "blind",
    }
}

/// The path of a stream.
pub fn stream_path(idx: usize) -> (r: &'static str)
    requires
        idx < STREAM_COUNT,
    ensures
        r@ == match idx {
            0 => "/api/v1/stronghold/events"@,
            1 => "/api/v1/information-messages/events"@,
            2 => "/api/v1/boat/events"@,
            _ => "/api/v1/blind/events"@,
        },
{
    match idx {
        0 => "/api/v1/stronghold/events",
        1 => "/api/v1/information-messages/events",
        2 => "/api/v1/boat/events",
        _ => "/api/v1/blind/events",
    }
}

// ---------------------------------------------------------------------------
// Status
// ---------------------------------------------------------------------------

/// What the connection indicator shows.
#[derive(Clone, Copy, Debug, PartialEq, Eq, Structural)]
pub enum NbbState {
    Stopped,
    Connecting,
    Connected,
    Offline,
}

/// The status of the client for the settings window.
#[derive(Clone, Debug)]
pub struct NbbClientStatus {
    pub state: NbbState,
    pub api_base_url: String,
    pub last_error: String,
}

/// The client: whether it runs, which streams are up, and the number of its
/// present session. A session that is over has an older number.
pub struct NbbClient {
    pub generation: u64,
    pub running: bool,
    pub api_base_url: String,
    pub connected: [bool; 4],
    pub last_error: String,
}

#[verifier::ext_equal]
pub struct ClientView {
    pub generation: u64,
    pub running: bool,
    pub api_base_url: Seq<char>,
    pub connected: Seq<bool>,
    pub last_error: Seq<char>,
}

impl View for NbbClient {
    type V = ClientView;

    open spec fn view(&self) -> ClientView {
        ClientView {
            generation: self.generation,
            running: self.running,
            api_base_url: self.api_base_url@,
            connected: self.connected@,
            last_error: self.last_error@,
        }
    }
}

/// No stream is up.
pub open spec fn none_up() -> Seq<bool> {
    seq![false, false, false, false]
}

/// Some stream is up.
pub open spec fn any_up(c: Seq<bool>) -> bool {
    c[0] || c[1] || c[2] || c[3]
}

/// Every stream is up.
pub open spec fn all_up(c: Seq<bool>) -> bool {
    c[0] && c[1] && c[2] && c[3]
}

/// What the indicator shows: one stream that is up is a connection, an error
/// without any is offline.
pub open spec fn state_of(c: ClientView) -> NbbState {
    if !c.running {
        NbbState::Stopped
    } else if any_up(c.connected) {
        NbbState::Connected
    } else if c.last_error.len() > 0 {
        NbbState::Offline
    } else {
        NbbState::Connecting
    }
}

impl NbbClient {
    /// A client that was never started.
    pub fn new() -> (r: NbbClient)
        ensures
            r@ == (ClientView {
                generation: 0,
                running: false,
                api_base_url: Seq::empty(),
                connected: none_up(),
                last_error: Seq::empty(),
            }),
    {
        let r = NbbClient {
            generation: 0,
            running: false,
            api_base_url: String::new(),
            connected: [false, false, false, false],
            last_error: String::new(),
        };
        assert(r@.connected =~= none_up());
        r
    }
}

/// The status of the client.
pub fn get_status(c: &NbbClient) -> (r: NbbClientStatus)
    ensures
        r.state == state_of(c@),
        r.api_base_url@ == c.api_base_url@,
        r.last_error@ == c.last_error@,
{
    let state = if !c.running {
        NbbState::Stopped
    } else if c.connected[0] || c.connected[1] || c.connected[2] || c.connected[3] {
        NbbState::Connected
    } else if !c.last_error.as_str().is_empty() {
        NbbState::Offline
    } else {
        NbbState::Connecting
    };
    NbbClientStatus {
        state,
        api_base_url: c.api_base_url.clone(),
        last_error: c.last_error.clone(),
    }
}

/// Whether a session is the present one.
pub fn is_active(c: &NbbClient, generation: u64) -> (r: bool)
    ensures
        r == (c.generation == generation),
{
    c.generation == generation
}

// ---------------------------------------------------------------------------
// Addresses
// ---------------------------------------------------------------------------

/// A base address without white space round it and slashes behind it; an empty
/// one is the bot's own.
pub open spec fn base_url(url: Seq<char>) -> Seq<char> {
    let t = strip_back(trimmed(url), '/');
    if t.len() == 0 {
        "http://127.0.0.1:52533"@
    } else {
        t
    }
}

pub fn normalize_base_url(url: &str) -> (r: String)
    ensures
        r@ == base_url(url@),
{
    let v = to_chars(url);
    let (a, b) = trim_bounds(&v, 0, v.len());
    let end: usize = strip_bound(&v, a, b, '/');
    assert(v@.subrange(0, v@.len() as int) == v@);
    if a == end {
        "http://127.0.0.1:52533".to_owned()
    } else {
        from_range(&v, a, end)
    }
}

/// The part of a base address that names host and port.
pub open spec fn authority(base: Seq<char>) -> Seq<char> {
    let rest = if matches_at(base, "http://"@, 0) {
        base.subrange(7, base.len() as int)
    } else {
        base
    };
    match find_from(rest, seq!['/'], 0) {
        Some(i) => rest.take(i),
        None => rest,
    }
}

/// Host and port of a base address: the port stands behind the last colon and
/// is 80 where there is none. An empty host or a bad port is no address.
pub open spec fn host_port(base: Seq<char>) -> Option<(Seq<char>, int)> {
    let a = authority(base);
    match last_position(a, ':') {
        Some(i) => match unsigned_value(a.subrange(i + 1, a.len() as int), 65535) {
            Some(p) => if i > 0 {
                Some((a.take(i), p))
            } else {
                None
            },
            None => None,
        },
        None => if a.len() > 0 {
            Some((a, 80int))
        } else {
            None
        },
    }
}

/// `http://host:port` as host and port.
pub fn parse_base_url(base: &str) -> (r: Option<(String, u16)>)
    ensures
        r is Some <==> host_port(base@) is Some,
        r matches Some((host, port)) ==> host_port(base@) == Some((host@, port as int)),
{
    let v = to_chars(base);
    let scheme = to_chars("http://");
    proof {
        reveal_strlit("http://");
    }
    let from: usize = if has_at(&v, &scheme, 0) {
        7
    } else {
        0
    };
    let ghost rest = v@.subrange(from as int, v@.len() as int);
    proof {
        assert(v@.subrange(0, v@.len() as int) == v@);
        crate::text::lemma_find_shift(v@, seq!['/'], from as int, 0);
        lemma_find_from(rest, seq!['/'], 0);
    }
    let to: usize = match find_char(&v, '/', from) {
        Some(i) => i,
        None => v.len(),
    };
    let ghost a = v@.subrange(from as int, to as int);
    assert(a == authority(base@)) by {
        if find_from(rest, seq!['/'], 0) is Some {
            assert(rest.take(to - from) == a);
        } else {
            assert(rest == a);
        }
    }
    match find_last(&v, from, to, ':') {
        Some(i) => {
            assert(a.subrange(i + 1, a.len() as int) == v@.subrange(from + i + 1, to as int));
            assert(a.take(i as int) == v@.subrange(from as int, from + i));
            match parse_unsigned(&v, from + i + 1, to, 65535) {
                Some(p) => {
                    if i > 0 {
                        Some((from_range(&v, from, from + i), p as u16))
                    } else {
                        None
                    }
                },
                None => None,
            }
        },
        None => {
            if to > from {
                Some((from_range(&v, from, to), 80))
            } else {
                None
            }
        },
    }
}

// ---------------------------------------------------------------------------
// Life cycle
// ---------------------------------------------------------------------------

/// The client after a stop: a new session number, and no stream up.
pub open spec fn stopped(c: ClientView) -> ClientView {
    ClientView {
        generation: c.generation.wrapping_add(1),
        running: false,
        connected: none_up(),
        ..c
    }
}

/// The client after a start with a base address in its normal form.
pub open spec fn started(c: ClientView, base: Seq<char>) -> ClientView {
    ClientView {
        generation: c.generation.wrapping_add(1).wrapping_add(1),
        running: true,
        api_base_url: base,
        connected: none_up(),
        last_error: Seq::empty(),
    }
}

/// Ends the present session.
pub fn stop(c: &mut NbbClient)
    ensures
        final(c)@ == stopped(old(c)@),
{
    c.generation = c.generation.wrapping_add(1);
    c.running = false;
    c.connected = [false, false, false, false];
    assert(c@ =~= stopped(old(c)@));
}

/// Starts a session at an address, ending the one before, and forgets what the
/// bot told. The result is the number of the new session; one thread per
/// stream is to be run for it.
pub fn start(c: &mut NbbClient, d: &mut NinjabrainData, api_base_url: &str) -> (r: u64)
    ensures
        final(c)@ == started(old(c)@, base_url(api_base_url@)),
        final(d)@ == no_data(),
        r == final(c)@.generation,
{
    stop(c);
    let base = normalize_base_url(api_base_url);
    c.generation = c.generation.wrapping_add(1);
    reset_nbb_data(d);
    c.running = true;
    c.api_base_url = base;
    c.connected = [false, false, false, false];
    c.last_error = String::new();
    assert(c@ =~= started(old(c)@, base_url(api_base_url@)));
    c.generation
}

/// Starts anew at an address.
pub fn restart(c: &mut NbbClient, d: &mut NinjabrainData, api_base_url: &str) -> (r: u64)
    ensures
        final(c)@ == started(old(c)@, base_url(api_base_url@)),
        final(d)@ == no_data(),
        r == final(c)@.generation,
{
    start(c, d, api_base_url)
}

/// What a configuration asks of the client.
#[derive(Clone, Copy, Debug, PartialEq, Eq, Structural)]
pub enum ConfigStep {
    /// A session was started; it has this number.
    Started(u64),
    Stopped,
    Unchanged,
}

/// The configuration asks for a start: it is enabled, and the client does not
/// run, or runs at another address.
pub open spec fn wants_start(c: ClientView, enabled: bool, url: Seq<char>) -> bool {
    enabled && (!c.running || c.api_base_url != base_url(url))
}

/// The client after a configuration was applied.
pub open spec fn configured(c: ClientView, enabled: bool, url: Seq<char>) -> ClientView {
    if wants_start(c, enabled, url) {
        started(c, base_url(base_url(url)))
    } else if !enabled && c.running {
        stopped(c)
    } else {
        c
    }
}

/// Makes the client follow the configuration.
pub fn apply_config(
    c: &mut NbbClient,
    d: &mut NinjabrainData,
    enabled: bool,
    api_base_url: &str,
) -> (r: ConfigStep)
    ensures
        final(c)@ == configured(old(c)@, enabled, api_base_url@),
        wants_start(old(c)@, enabled, api_base_url@) ==> final(d)@ == no_data() && r
            == ConfigStep::Started(final(c)@.generation),
        !wants_start(old(c)@, enabled, api_base_url@) ==> final(d)@ == old(d)@ && r == (if !enabled
            && old(c)@.running {
            ConfigStep::Stopped
        } else {
            ConfigStep::Unchanged
        }),
{
    let want = normalize_base_url(api_base_url);
    if enabled {
        if !c.running {
            return ConfigStep::Started(start(c, d, want.as_str()));
        }
        if !same_text(c.api_base_url.as_str(), want.as_str()) {
            return ConfigStep::Started(restart(c, d, want.as_str()));
        }
        ConfigStep::Unchanged
    } else if c.running {
        stop(c);
        ConfigStep::Stopped
    } else {
        ConfigStep::Unchanged
    }
}

// ---------------------------------------------------------------------------
// Streams
// ---------------------------------------------------------------------------

/// The client after stream `idx` of a session came up: the last error goes
/// when all streams are up. A session that is over changes nothing.
pub open spec fn stream_up(c: ClientView, generation: u64, idx: int) -> ClientView {
    if c.generation != generation {
        c
    } else {
        let connected = c.connected.update(idx, true);
        ClientView {
            connected,
            last_error: if all_up(connected) {
                Seq::empty()
            } else {
                c.last_error
            },
            ..c
        }
    }
}

/// The client after stream `idx` of a session was lost.
pub open spec fn stream_down(
    c: ClientView,
    generation: u64,
    idx: int,
    error: Seq<char>,
) -> ClientView {
    if c.generation != generation {
        c
    } else {
        ClientView { connected: c.connected.update(idx, false), last_error: error, ..c }
    }
}

/// Notes that a stream is up.
pub fn mark_connected(c: &mut NbbClient, generation: u64, idx: usize)
    requires
        idx < STREAM_COUNT,
    ensures
        final(c)@ == stream_up(old(c)@, generation, idx as int),
{
    if !is_active(c, generation) {
        return;
    }
    c.connected[idx] = true;
    assert(c.connected@ =~= old(c).connected@.update(idx as int, true));
    if c.connected[0] && c.connected[1] && c.connected[2] && c.connected[3] {
        c.last_error = String::new();
    }
}

/// Notes that a stream was lost, and why.
pub fn mark_disconnected(c: &mut NbbClient, generation: u64, idx: usize, error: &str)
    requires
        idx < STREAM_COUNT,
    ensures
        final(c)@ == stream_down(old(c)@, generation, idx as int, error@),
{
    if !is_active(c, generation) {
        return;
    }
    c.connected[idx] = false;
    assert(c.connected@ =~= old(c).connected@.update(idx as int, false));
    c.last_error = error.to_owned();
}

/// The data without what stream `idx` gave.
pub open spec fn without_stream(d: DataView, idx: int) -> DataView {
    if idx == 0 {
        without_stronghold(d)
    } else if idx == 1 {
        DataView { information_messages: Seq::empty(), ..d }
    } else if idx == 2 {
        DataView { boat_state: "NONE"@, boat_angle: 0, has_boat_angle: false, ..d }
    } else {
        DataView { blind: no_blind(), ..d }
    }
}

/// The data as changed at `now_ms`.
pub open spec fn stamped(d: DataView, now_ms: u64) -> DataView {
    DataView { last_update: Some(now_ms), ..d }
}

/// Forgets what a lost stream gave, unless its session is over.
pub fn clear_stream_data(
    c: &NbbClient,
    d: &mut NinjabrainData,
    generation: u64,
    idx: usize,
    now_ms: u64,
)
    requires
        idx < STREAM_COUNT,
    ensures
        final(d)@ == if c.generation == generation {
            stamped(without_stream(old(d)@, idx as int), now_ms)
        } else {
            old(d)@
        },
{
    if !is_active(c, generation) {
        return;
    }
    match idx {
        0 => clear_stronghold(d),
        1 => clear_info_messages(d),
        2 => clear_boat(d),
        _ => clear_blind(d),
    }
    stamp_update(d, now_ms);
}

/// An event of one of the streams.
pub enum StreamEvent {
    Stronghold(StrongholdEvent),
    Info(Json),
    Boat(Json),
    Blind(Json),
}

/// `e` is what the JSON value `j` means on stream `idx`.
pub open spec fn event_is(e: StreamEvent, idx: int, j: Json) -> bool {
    match e {
        StreamEvent::Stronghold(s) => idx == 0 && s@ == event_of(j) && event_ok(s@),
        StreamEvent::Info(v) => idx == 1 && v == j,
        StreamEvent::Boat(v) => idx == 2 && v == j,
        StreamEvent::Blind(v) => idx >= 3 && v == j,
    }
}

/// The event that a JSON value means on a stream.
pub fn stream_event(idx: usize, json: Json) -> (r: StreamEvent)
    ensures
        event_is(r, idx as int, json),
{
    match idx {
        0 => StreamEvent::Stronghold(read_stronghold_event(&json)),
        1 => StreamEvent::Info(json),
        2 => StreamEvent::Boat(json),
        _ => StreamEvent::Blind(json),
    }
}

/// The event in the data that a stream sent. Nothing is to be done for a
/// session that is over, and for data that is not JSON.
pub fn dispatch_event(c: &NbbClient, generation: u64, idx: usize, data: &str) -> (r: Option<
    StreamEvent,
>)
    ensures
        r is Some <==> c.generation == generation && json_text(data@) is Some,
        r matches Some(e) ==> event_is(e, idx as int, json_text(data@)->0),
{
    if !is_active(c, generation) {
        return None;
    }
    match parse_json(data) {
        Some(json) => Some(stream_event(idx, json)),
        None => None,
    }
}

/// The data after an event.
pub open spec fn after_event(d: DataView, e: StreamEvent, math: StrongholdMath) -> DataView {
    match e {
        StreamEvent::Stronghold(s) => after_stronghold(
            d,
            s@,
            math.correction_delta,
            math.angle_diff,
            math.angles@,
        ),
        StreamEvent::Info(j) => after_info(d, j),
        StreamEvent::Boat(j) => after_boat(d, j),
        StreamEvent::Blind(j) => DataView { blind: blind_of(j), ..d },
    }
}

/// `math` fits the event: it holds an angle for each prediction that has one.
pub open spec fn math_fits(e: StreamEvent, math: StrongholdMath) -> bool {
    e matches StreamEvent::Stronghold(s) ==> event_ok(s@) && (s.player is Some
        ==> math.angles@.len() == s.predictions@.len())
}

/// Takes an event over. `math` counts for a stronghold event only.
pub fn apply_event(d: &mut NinjabrainData, e: StreamEvent, math: &StrongholdMath, now_ms: u64)
    requires
        math_fits(e, *math),
    ensures
        final(d)@ == stamped(after_event(old(d)@, e, *math), now_ms),
{
    match e {
        StreamEvent::Stronghold(s) => apply_stronghold_event(d, s, math),
        StreamEvent::Info(j) => apply_info_messages_event(d, &j),
        StreamEvent::Boat(j) => apply_boat_event(d, &j),
        StreamEvent::Blind(j) => apply_blind_event(d, &j),
    }
    stamp_update(d, now_ms);
}

/// What follows a read of a stream on which nothing came for too long. That is
/// no error: the stream is opened again, unless the client was told to stop or
/// the session is over, and neither the data nor the status changes.
pub fn on_stream_timeout(c: &NbbClient, generation: u64, stop: bool) -> (again: bool)
    ensures
        again == (!stop && c@.generation == generation),
{
    !stop && is_active(c, generation)
}

/// What follows a failed read of a stream: nothing more where the client was
/// told to stop or the session is over; else what the stream gave is dropped
/// if it had been up, and the error is noted.
pub fn on_stream_error(
    c: &mut NbbClient,
    d: &mut NinjabrainData,
    generation: u64,
    idx: usize,
    stop: bool,
    was_connected: bool,
    error: &str,
    now_ms: u64,
) -> (again: bool)
    requires
        idx < STREAM_COUNT,
    ensures
        again == (!stop && old(c)@.generation == generation),
        !again ==> final(c)@ == old(c)@ && final(d)@ == old(d)@,
        again ==> final(c)@ == stream_down(old(c)@, generation, idx as int, error@),
        again ==> final(d)@ == if was_connected {
            stamped(without_stream(old(d)@, idx as int), now_ms)
        } else {
            old(d)@
        },
{
    if stop || !is_active(c, generation) {
        return false;
    }
    if was_connected {
        clear_stream_data(c, d, generation, idx, now_ms);
    }
    mark_disconnected(c, generation, idx, error);
    true
}

/// The error of a stream whose base address is none.
pub fn bad_url_error(base: &str) -> (r: String)
    ensures
        r@ == "invalid API base url: "@ + base@,
{
    let mut s: String = "invalid API base url: ".to_owned();
    s.append(base);
    s
}

// ---------------------------------------------------------------------------
// The HTTP reply
// ---------------------------------------------------------------------------

/// `host:port`.
pub fn address_text(host: &str, port: u16) -> (r: String)
    ensures
        r@ == host@ + ":"@ + decimal_nat(port as nat),
{
    let mut s: String = host.to_owned();
    s.append(":");
    push_nat(&mut s, port as u64);
    s
}

/// The request for a stream.
pub fn stream_request(path: &str, host: &str, port: u16) -> (r: String)
    ensures
        r@ == "GET "@ + path@ + " HTTP/1.1\r\nHost: "@ + (host@ + ":"@ + decimal_nat(port as nat))
            + "\r\nAccept: text/event-stream\r\nCache-Control: no-cache\r\nConnection: keep-alive\r\n\r\n"@,
{
    let mut s: String = "GET ".to_owned();
    s.append(path);
    s.append(" HTTP/1.1\r\nHost: ");
    let a = address_text(host, port);
    s.append(a.as_str());
    s.append(
        "\r\nAccept: text/event-stream\r\nCache-Control: no-cache\r\nConnection: keep-alive\r\n\r\n",
    );
    s
}

/// Checks the status line of the reply; the error shows the line.
pub fn check_status_line(line: &str) -> (r: Result<(), String>)
    ensures
        r is Ok <==> contains(line@, "200"@),
        r matches Err(e) ==> e@ == "HTTP error: "@ + trimmed(line@),
{
    if has_text(line, "200") {
        Ok(())
    } else {
        let mut s: String = "HTTP error: ".to_owned();
        let t = trim(line);
        s.append(t.as_str());
        Err(s)
    }
}

/// What a header line means.
#[derive(Clone, Copy, Debug, PartialEq, Eq, Structural)]
pub enum HeaderLine {
    /// The headers end here.
    End,
    /// The body comes in chunks.
    Chunked,
    Other,
}

pub open spec fn header_of(line: Seq<char>) -> HeaderLine {
    let l = lower(trimmed(line));
    if l.len() == 0 {
        HeaderLine::End
    } else if matches_at(l, "transfer-encoding:"@, 0) && contains(l, "chunked"@) {
        HeaderLine::Chunked
    } else {
        HeaderLine::Other
    }
}

/// Reads a header line.
pub fn read_header(line: &str) -> (r: HeaderLine)
    ensures
        r == header_of(line@),
{
    let t = trim(line);
    let l = to_lower(t.as_str());
    if l.as_str().is_empty() {
        HeaderLine::End
    } else if crate::text::begins_with(l.as_str(), "transfer-encoding:") && has_text(
        l.as_str(),
        "chunked",
    ) {
        HeaderLine::Chunked
    } else {
        HeaderLine::Other
    }
}

/// What the line in front of a chunk says.
#[derive(Clone, Copy, Debug, PartialEq, Eq, Structural)]
pub enum ChunkLine {
    /// A chunk of so many bytes follows.
    Size(usize),
    /// The stream ends.
    Ended,
    /// The line is no chunk size.
    Bad,
}

/// Reads the line in front of a chunk: its size in hexadecimal.
pub fn read_chunk_line(line: &str) -> (r: ChunkLine)
    ensures
        match hex_number(trimmed(line@), usize::MAX as int) {
            Some(n) => if n == 0 {
                r == ChunkLine::Ended
            } else {
                r matches ChunkLine::Size(k) && k == n
            },
            None => r == ChunkLine::Bad,
        },
{
    let v = to_chars(line);
    let (a, b) = trim_bounds(&v, 0, v.len());
    assert(v@.subrange(0, v@.len() as int) == v@);
    match parse_hex(&v, a, b, usize::MAX as u64) {
        Some(n) => {
            if n == 0 {
                ChunkLine::Ended
            } else {
                ChunkLine::Size(n as usize)
            }
        },
        None => ChunkLine::Bad,
    }
}

/// The error of a stream that ends with such a line.
pub fn chunk_error(line: ChunkLine) -> (r: &'static str)
    ensures
        r@ == match line {
            ChunkLine::Bad => "bad chunk size"@,
            _ => "stream ended"@,
        },
{
    match line {
        ChunkLine::Bad => "bad chunk size",
        _ => "stream ended",
    }
}

// ---------------------------------------------------------------------------
// Server-sent events
// ---------------------------------------------------------------------------

/// The data lines of the event that is being received.
pub struct SseAccumulator {
    pub data: Vec<String>,
}

impl View for SseAccumulator {
    type V = Seq<Seq<char>>;

    open spec fn view(&self) -> Seq<Seq<char>> {
        texts(self.data@)
    }
}

/// A line without the carriage return at its end.
pub open spec fn without_cr(line: Seq<char>) -> Seq<char> {
    if line.len() > 0 && line.last() == '\r' {
        line.drop_last()
    } else {
        line
    }
}

/// The value of a data line: what stands behind the colon, without one blank.
pub open spec fn data_value(line: Seq<char>) -> Option<Seq<char>> {
    if !matches_at(line, "data:"@, 0) {
        None
    } else if line.len() > 5 && line[5] == ' ' {
        Some(line.subrange(6, line.len() as int))
    } else {
        Some(line.subrange(5, line.len() as int))
    }
}

/// Lines joined with a line feed between them.
pub open spec fn join_lines(v: Seq<Seq<char>>) -> Seq<char>
    decreases v.len(),
{
    if v.len() == 0 {
        Seq::empty()
    } else if v.len() == 1 {
        v[0]
    } else {
        join_lines(v.drop_last()) + seq!['\n'] + v.last()
    }
}

/// The data lines after a line: an empty one ends the event, a data line adds
/// its value, any other changes nothing.
pub open spec fn fed(data: Seq<Seq<char>>, line: Seq<char>) -> Seq<Seq<char>> {
    let l = without_cr(line);
    if l.len() == 0 {
        Seq::empty()
    } else {
        match data_value(l) {
            Some(v) => data.push(v),
            None => data,
        }
    }
}

/// The event that a line completes: an empty line behind data.
pub open spec fn completed(data: Seq<Seq<char>>, line: Seq<char>) -> Option<Seq<char>> {
    if without_cr(line).len() == 0 && data.len() > 0 {
        Some(join_lines(data))
    } else {
        None
    }
}

fn join(v: &Vec<String>) -> (r: String)
    ensures
        r@ == join_lines(texts(v@)),
{
    let mut out: String = String::new();
    let ghost t = texts(v@);
    let mut i: usize = 0;
    while i < v.len()
        invariant
            i <= v@.len(),
            t == texts(v@),
            out@ == join_lines(t.take(i as int)),
        decreases v.len() - i,
    {
        if i > 0 {
            out.push('\n');
        }
        out.append(v[i].as_str());
        i += 1;
        proof {
            let p = t.take(i as int);
            assert(p.drop_last() == t.take(i - 1));
            assert(p.last() == v@[i - 1]@);
            assert(out@ == join_lines(p));
        }
    }
    assert(t.take(i as int) == t);
    out
}

impl SseAccumulator {
    /// Nothing received yet.
    pub fn new() -> (r: SseAccumulator)
        ensures
            r@ == Seq::<Seq<char>>::empty(),
    {
        let r = SseAccumulator { data: Vec::new() };
        assert(r@ =~= Seq::<Seq<char>>::empty());
        r
    }

    /// Takes one line without its line feed. The result is the data of the
    /// event that the line completes.
    pub fn feed_line(&mut self, line: &str) -> (r: Option<String>)
        ensures
            final(self)@ == fed(old(self)@, line@),
            r is Some <==> completed(old(self)@, line@) is Some,
            r matches Some(e) ==> e@ == completed(old(self)@, line@)->0,
    {
        let v = to_chars(line);
        let n: usize = if v.len() > 0 && v[v.len() - 1] == '\r' {
            v.len() - 1
        } else {
            v.len()
        };
        let ghost l = without_cr(line@);
        assert(v@.subrange(0, n as int) == l);
        assert(self@.len() == self.data@.len());
        if n == 0 {
            if self.data.len() == 0 {
                assert(self@ =~= fed(old(self)@, line@));
                return None;
            }
            let event = join(&self.data);
            self.data = Vec::new();
            assert(self@ =~= fed(old(self)@, line@));
            return Some(event);
        }
        let tag = to_chars("data:");
        proof {
            reveal_strlit("data:");
            if n >= 5 {
                assert(v@.subrange(0, 5) == l.subrange(0, 5));
            }
        }
        if n >= 5 && has_at(&v, &tag, 0) {
            let from: usize = if n > 5 && v[5] == ' ' {
                6
            } else {
                5
            };
            assert(v@.subrange(from as int, n as int) == l.subrange(from as int, n as int));
            let value = from_range(&v, from, n);
            push_text(&mut self.data, value);
            assert(self@ == fed(old(self)@, line@));
        } else {
            assert(data_value(l) is None);
        }
        None
    }

    /// Takes a chunk of the body, line by line. The result is the data of the
    /// events that its lines complete, in order.
    pub fn feed_payload(&mut self, payload: &str) -> (r: Vec<String>)
        ensures
            final(self)@ == fed_all(old(self)@, lines(payload@)),
            texts(r@) == completed_all(old(self)@, lines(payload@)),
    {
        let ls = split_lines(payload);
        let ghost all = lines(payload@);
        let ghost start = self@;
        let mut out: Vec<String> = Vec::new();
        let mut i: usize = 0;
        assert(all.take(0) =~= Seq::<Seq<char>>::empty());
        assert(texts(out@) =~= completed_all(start, all.take(0)));
        while i < ls.len()
            invariant
                i <= ls@.len(),
                texts(ls@) == all,
                self@ == fed_all(start, all.take(i as int)),
                texts(out@) == completed_all(start, all.take(i as int)),
            decreases ls.len() - i,
        {
            assert(all[i as int] == ls@[i as int]@);
            let e = self.feed_line(ls[i].as_str());
            proof {
                let p = all.take(i + 1);
                assert(p.drop_last() == all.take(i as int));
                assert(p.last() == all[i as int]);
            }
            if let Some(e) = e {
                push_text(&mut out, e);
            }
            i += 1;
        }
        assert(all.take(i as int) == all);
        out
    }
}

/// The data lines after several lines.
pub open spec fn fed_all(data: Seq<Seq<char>>, ls: Seq<Seq<char>>) -> Seq<Seq<char>>
    decreases ls.len(),
{
    if ls.len() == 0 {
        data
    } else {
        fed(fed_all(data, ls.drop_last()), ls.last())
    }
}

/// The events that several lines complete.
pub open spec fn completed_all(data: Seq<Seq<char>>, ls: Seq<Seq<char>>) -> Seq<Seq<char>>
    decreases ls.len(),
{
    if ls.len() == 0 {
        Seq::empty()
    } else {
        let before = completed_all(data, ls.drop_last());
        match completed(fed_all(data, ls.drop_last()), ls.last()) {
            Some(e) => before.push(e),
            None => before,
        }
    }
}

// ---------------------------------------------------------------------------
// Laws
// ---------------------------------------------------------------------------

/// The lines that send a text of several lines as one event.
pub open spec fn sse_lines(values: Seq<Seq<char>>) -> Seq<Seq<char>> {
    values.map_values(|v: Seq<char>| "data: "@ + v).push(Seq::empty())
}

proof fn lemma_data_lines(data: Seq<Seq<char>>, values: Seq<Seq<char>>)
    requires
        forall|i: int|
            0 <= i < values.len() ==> !((#[trigger] values[i]).len() > 0 && values[i].last()
                == '\r'),
    ensures
        fed_all(data, values.map_values(|v: Seq<char>| "data: "@ + v)) == data + values,
        completed_all(data, values.map_values(|v: Seq<char>| "data: "@ + v)) == Seq::<
            Seq<char>,
        >::empty(),
    decreases values.len(),
{
    reveal_strlit("data: ");
    reveal_strlit("data:");
    let ls = values.map_values(|v: Seq<char>| "data: "@ + v);
    if values.len() == 0 {
        assert(data + values == data);
    } else {
        let front = values.drop_last();
        let v = values.last();
        assert(ls.drop_last() == front.map_values(|v: Seq<char>| "data: "@ + v));
        lemma_data_lines(data, front);
        let line = "data: "@ + v;
        assert(ls.last() == line);
        assert(values[values.len() - 1] == v);
        assert(without_cr(line) == line);
        assert(line.subrange(0, 5) == "data:"@);
        assert(line.subrange(6, line.len() as int) == v);
        assert((data + front).push(v) == data + values);
    }
}

/// What is sent as an event is received as it was: the data lines of a text,
/// then an empty line, complete one event with that text, and nothing is left
/// over for the next. No line of the text may end in a carriage return.
pub proof fn law_sse_round_trip(values: Seq<Seq<char>>)
    requires
        values.len() > 0,
        forall|i: int|
            0 <= i < values.len() ==> !((#[trigger] values[i]).len() > 0 && values[i].last()
                == '\r'),
    ensures
        completed_all(Seq::empty(), sse_lines(values)) == seq![join_lines(values)],
        fed_all(Seq::empty(), sse_lines(values)) == Seq::<Seq<char>>::empty(),
{
    let ls = sse_lines(values);
    let front = values.map_values(|v: Seq<char>| "data: "@ + v);
    assert(ls.drop_last() == front);
    lemma_data_lines(Seq::empty(), values);
    assert(Seq::<Seq<char>>::empty() + values == values);
    assert(completed_all(Seq::empty(), ls) == Seq::<Seq<char>>::empty().push(join_lines(values)));
    assert(Seq::<Seq<char>>::empty().push(join_lines(values)) == seq![join_lines(values)]);
}

/// A line that ends in a carriage return counts as the line without it.
pub proof fn law_crlf_is_lf(data: Seq<Seq<char>>, line: Seq<char>)
    requires
        !(line.len() > 0 && line.last() == '\r'),
    ensures
        fed(data, line.push('\r')) == fed(data, line),
        completed(data, line.push('\r')) == completed(data, line),
{
    assert(line.push('\r').drop_last() == line);
}

/// A line that is neither empty nor a data line changes nothing.
pub proof fn law_other_lines_are_ignored(data: Seq<Seq<char>>, line: Seq<char>)
    requires
        without_cr(line).len() > 0,
        data_value(without_cr(line)) is None,
    ensures
        fed(data, line) == data,
        completed(data, line) is None,
{
}

proof fn lemma_trim_front(s: Seq<char>)
    ensures
        crate::text::trim_front(s).len() == 0 || !crate::text::is_white_space(
            crate::text::trim_front(s)[0],
        ),
        exists|k: int| 0 <= k <= s.len() && crate::text::trim_front(s) == s.subrange(
            k,
            s.len() as int,
        ),
    decreases s.len(),
{
    if s.len() > 0 && crate::text::is_white_space(s[0]) {
        let t = s.subrange(1, s.len() as int);
        lemma_trim_front(t);
        let k = choose|k: int| 0 <= k <= t.len() && crate::text::trim_front(t) == t.subrange(
            k,
            t.len() as int,
        );
        assert(t.subrange(k, t.len() as int) == s.subrange(k + 1, s.len() as int));
    } else {
        assert(s.subrange(0, s.len() as int) == s);
    }
}

proof fn lemma_trim_back(s: Seq<char>)
    ensures
        crate::text::trim_back(s).len() == 0 || !crate::text::is_white_space(
            crate::text::trim_back(s).last(),
        ),
        crate::text::trim_back(s).len() <= s.len(),
        crate::text::trim_back(s) == s.take(crate::text::trim_back(s).len() as int),
    decreases s.len(),
{
    if s.len() > 0 && crate::text::is_white_space(s.last()) {
        lemma_trim_back(s.drop_last());
        let n = crate::text::trim_back(s).len() as int;
        assert(s.drop_last().take(n) == s.take(n));
    } else {
        assert(s.take(s.len() as int) == s);
    }
}

proof fn lemma_strip_back(s: Seq<char>, c: char)
    ensures
        strip_back(s, c).len() == 0 || strip_back(s, c).last() != c,
        strip_back(s, c).len() <= s.len(),
        strip_back(s, c) == s.take(strip_back(s, c).len() as int),
    decreases s.len(),
{
    if s.len() > 0 && s.last() == c {
        lemma_strip_back(s.drop_last(), c);
        let n = strip_back(s, c).len() as int;
        assert(s.drop_last().take(n) == s.take(n));
    } else {
        assert(s.take(s.len() as int) == s);
    }
}

/// The normal form of a base address never ends in a slash and is never empty.
pub proof fn law_base_url_shape(url: Seq<char>)
    ensures
        base_url(url).len() > 0,
        base_url(url).last() != '/',
{
    reveal_strlit("http://127.0.0.1:52533");
    lemma_strip_back(trimmed(url), '/');
}

/// A normal form that does not end in white space is its own normal form. (It
/// ends in white space where slashes followed some, as in `"a /"`.)
pub proof fn law_base_url_idempotent(url: Seq<char>)
    requires
        !crate::text::is_white_space(base_url(url).last()),
    ensures
        base_url(base_url(url)) == base_url(url),
{
    let b = base_url(url);
    law_base_url_shape(url);
    reveal_strlit("http://127.0.0.1:52533");
    let f = crate::text::trim_front(url);
    lemma_trim_front(url);
    lemma_trim_back(f);
    lemma_strip_back(trimmed(url), '/');
    if strip_back(trimmed(url), '/').len() > 0 {
        assert(b[0] == f[0]);
    }
    assert(crate::text::trim_front(b) == b);
    assert(crate::text::trim_back(b) == b);
    assert(strip_back(b, '/') == b);
}

/// The present configuration asks for nothing once it was applied: a client
/// that is off stays off, and one that runs keeps its session. The address
/// must be one whose normal form is its own.
pub proof fn law_config_settles(c: ClientView, enabled: bool, url: Seq<char>)
    requires
        base_url(base_url(url)) == base_url(url),
    ensures
        configured(configured(c, enabled, url), enabled, url) == configured(c, enabled, url),
        configured(c, enabled, url).running == enabled,
        enabled ==> configured(c, enabled, url).api_base_url == base_url(url),
{
}

/// A session that is over no longer changes anything.
pub proof fn law_stale_session_is_mute(
    c: ClientView,
    generation: u64,
    idx: int,
    error: Seq<char>,
)
    requires
        c.generation != generation,
    ensures
        stream_up(c, generation, idx) == c,
        stream_down(c, generation, idx, error) == c,
{
}

/// A new session has a number of its own, so that of the session before is
/// over.
pub proof fn law_start_ends_session(c: ClientView, base: Seq<char>)
    ensures
        started(c, base).generation != c.generation,
        stopped(c).generation != c.generation,
{
}

/// A started client is connecting; it is connected as soon as one stream is up
/// and offline when the last one is lost with an error.
pub proof fn law_state_follows_streams(
    c: ClientView,
    generation: u64,
    idx: int,
    error: Seq<char>,
    base: Seq<char>,
)
    requires
        c.running,
        c.generation == generation,
        c.connected.len() == 4,
        0 <= idx < 4,
        error.len() > 0,
    ensures
        state_of(started(c, base)) == NbbState::Connecting,
        state_of(stopped(c)) == NbbState::Stopped,
        state_of(stream_up(c, generation, idx)) == NbbState::Connected,
        (forall|i: int| 0 <= i < 4 && i != idx ==> !c.connected[i]) ==> state_of(
            stream_down(c, generation, idx, error),
        ) == NbbState::Offline,
        (forall|i: int| 0 <= i < 4 && i != idx ==> c.connected[i]) ==> stream_up(
            c,
            generation,
            idx,
        ).last_error.len() == 0,
{
    let up = stream_up(c, generation, idx);
    assert(up.connected[idx]);
    let down = stream_down(c, generation, idx, error);
    if forall|i: int| 0 <= i < 4 && i != idx ==> !c.connected[i] {
        assert(!down.connected[0] && !down.connected[1] && !down.connected[2]
            && !down.connected[3]);
    }
    if forall|i: int| 0 <= i < 4 && i != idx ==> c.connected[i] {
        assert(up.connected[0] && up.connected[1] && up.connected[2] && up.connected[3]);
    }
}

/// A text without slashes and white space, and without a colon: a host name.
pub open spec fn is_host(s: Seq<char>) -> bool {
    s.len() > 0 && !s.contains('/') && !s.contains(':') && forall|i: int|
        0 <= i < s.len() ==> !is_white_space(#[trigger] s[i])
}

proof fn lemma_last_position(s: Seq<char>, c: char, i: int)
    requires
        0 <= i < s.len(),
        s[i] == c,
        forall|j: int| i < j < s.len() ==> #[trigger] s[j] != c,
    ensures
        last_position(s, c) == Some(i),
    decreases s.len(),
{
    if i < s.len() - 1 {
        lemma_last_position(s.drop_last(), c, i);
    }
}

proof fn lemma_no_last_position(s: Seq<char>, c: char)
    requires
        !s.contains(c),
    ensures
        last_position(s, c) is None,
    decreases s.len(),
{
    if s.len() > 0 {
        assert(s.contains(s.last()));
        assert forall|j: int| 0 <= j < s.drop_last().len() implies s.drop_last()[j] != c by {
            assert(s[j] == s.drop_last()[j]);
        }
        lemma_no_last_position(s.drop_last(), c);
    }
}

proof fn lemma_authority(base: Seq<char>, a: Seq<char>, path: Seq<char>)
    requires
        !a.contains('/'),
        path.len() == 0 || path[0] == '/',
        base == "http://"@ + a + path || (base == a + path && path.len() == 0),
    ensures
        authority(base) == a,
{
    reveal_strlit("http://");
    let scheme = "http://"@;
    if base == scheme + a + path {
        assert(base.subrange(0, 7) =~= scheme);
        assert(base.subrange(7, base.len() as int) =~= a + path);
    } else {
        assert(a + path =~= a);
        if matches_at(base, scheme, 0) {
            assert(base.subrange(0, 7)[5] == '/');
            assert(a[5] == '/');
        }
    }
    let rest = a + path;
    lemma_find_from(rest, seq!['/'], 0);
    if path.len() > 0 {
        assert(rest[a.len() as int] == '/');
        assert(rest.subrange(a.len() as int, a.len() as int + 1) =~= seq!['/']);
        assert(matches_at(rest, seq!['/'], a.len() as int));
    }
    if let Some(i) = find_from(rest, seq!['/'], 0) {
        assert(rest.subrange(i, i + 1)[0] == '/');
        assert(rest[i] == '/');
        if i < a.len() {
            assert(a[i] == '/');
        }
        assert(rest.take(a.len() as int) =~= a);
    } else {
        assert(rest =~= a);
    }
}

/// The host and the port of an address are read as they were written, with and
/// without `http://` and whatever path follows; without a port it is 80.
pub proof fn law_address_round_trip(host: Seq<char>, port: u16, path: Seq<char>)
    requires
        is_host(host),
        path.len() == 0 || path[0] == '/',
    ensures
        host_port("http://"@ + (host + seq![':'] + decimal_nat(port as nat)) + path) == Some(
            (host, port as int),
        ),
        host_port(host + seq![':'] + decimal_nat(port as nat)) == Some((host, port as int)),
        host_port("http://"@ + host + path) == Some((host, 80int)),
        host_port(host) == Some((host, 80int)),
{
    let d = decimal_nat(port as nat);
    let a = host + seq![':'] + d;
    let i = host.len() as int;
    lemma_decimal_nat(port as nat);
    assert(!a.contains('/')) by {
        if a.contains('/') {
            let k = choose|k: int| 0 <= k < a.len() && a[k] == '/';
            if k < i {
                assert(host[k] == '/');
            } else if k > i {
                assert(a[k] == d[k - i - 1]);
            }
        }
    }
    lemma_authority("http://"@ + a + path, a, path);
    assert(a + Seq::<char>::empty() =~= a);
    lemma_authority(a, a, Seq::empty());
    lemma_authority("http://"@ + host + path, host, path);
    assert(host + Seq::<char>::empty() =~= host);
    lemma_authority(host, host, Seq::empty());
    assert forall|j: int| i < j < a.len() implies #[trigger] a[j] != ':' by {
        assert(a[j] == d[j - i - 1]);
    }
    lemma_last_position(a, ':', i);
    assert(a.subrange(i + 1, a.len() as int) =~= d);
    assert(a.take(i) =~= host);
    law_numbers_round_trip(port as nat, 0, 65535);
    lemma_no_last_position(host, ':');
}

/// An address that begins and ends with neither white space nor a slash stays as
/// it is; slashes behind it are dropped, and no address means the bot's usual one.
pub proof fn law_base_url_is_kept(url: Seq<char>)
    requires
        url.len() > 0,
        !is_white_space(url[0]),
        !is_white_space(url.last()),
        url.last() != '/',
    ensures
        base_url(url) == url,
        base_url(url.push('/')) == url,
        base_url(Seq::empty()) == "http://127.0.0.1:52533"@,
{
    assert(crate::text::trim_front(url) == url);
    assert(trimmed(url) == url);
    assert(strip_back(url, '/') == url);
    let s = url.push('/');
    assert(s[0] == url[0]);
    assert(trimmed(s) == s);
    assert(s.drop_last() =~= url);
    assert(strip_back(s, '/') == strip_back(url, '/'));
}

/// A client starts when it is turned on or its address changes, stops when it is
/// turned off, and else keeps its session.
pub proof fn law_client_follows_settings(c: ClientView, url: Seq<char>)
    ensures
        !c.running ==> configured(c, true, url).running && configured(c, true, url).generation
            != c.generation,
        c.running && c.api_base_url == base_url(url) ==> configured(c, true, url) == c,
        c.running && c.api_base_url != base_url(url) ==> configured(c, true, url).running
            && configured(c, true, url).generation != c.generation,
        c.running ==> !configured(c, false, url).running && configured(c, false, url).generation
            != c.generation,
        !c.running ==> configured(c, false, url) == c,
        configured(c, true, url) != c ==> configured(c, true, url).last_error.len() == 0
            && configured(c, true, url).connected == seq![false, false, false, false],
{
}

/// What each of the four streams sends changes its own part of the data only:
/// the stronghold, the messages, the boat, and blind travel.
pub proof fn law_streams_have_their_part(
    d: DataView,
    e: StreamEvent,
    idx: int,
    j: Json,
    math: StrongholdMath,
)
    requires
        event_is(e, idx, j),
        0 <= idx < 4,
    ensures
        ({
            let n = after_event(d, e, math);
            &&& idx != 0 ==> n.predictions == d.predictions && n.throws == d.throws
                && n.result_type == d.result_type && n.valid_prediction == d.valid_prediction
            &&& idx != 1 ==> n.information_messages == d.information_messages
            &&& idx != 2 ==> n.boat_state == d.boat_state && n.boat_angle == d.boat_angle
            &&& idx != 3 ==> n.blind == d.blind
            &&& idx == 0 ==> e is Stronghold
            &&& idx == 1 ==> n.information_messages == after_info(d, j).information_messages
            &&& idx == 2 ==> n.boat_state == after_boat(d, j).boat_state
            &&& idx == 3 ==> n.blind == blind_of(j)
        }),
{
}

/// What the boat stream sends is what the data then says of the boat, and the
/// data is as new as the event.
pub proof fn law_boat_event_is_kept(
    d: DataView,
    e: StreamEvent,
    j: Json,
    math: StrongholdMath,
    now_ms: u64,
    state: Seq<char>,
    angle: u64,
)
    requires
        event_is(e, 2, j),
        holds_text(j, "boatState"@, state),
        holds_number(j, "boatAngle"@, angle),
    ensures
        ({
            let n = stamped(after_event(d, e, math), now_ms);
            n.boat_state == state && n.boat_angle == angle && n.has_boat_angle && n.last_update
                == Some(now_ms)
        }),
{
    law_boat_round_trip(d, j, state, angle);
}

/// Losing a stream forgets its own part of the data and keeps the others.
pub proof fn law_lost_streams(d: DataView, idx: int, now_ms: u64)
    requires
        0 <= idx < 4,
    ensures
        ({
            let n = stamped(without_stream(d, idx), now_ms);
            &&& n.last_update == Some(now_ms)
            &&& idx == 0 ==> n.predictions.len() == 0 && n.throws.len() == 0
                && !n.valid_prediction
            &&& idx != 0 ==> n.predictions == d.predictions && n.throws == d.throws
                && n.result_type == d.result_type
            &&& idx == 1 ==> n.information_messages.len() == 0
            &&& idx != 1 ==> n.information_messages == d.information_messages
            &&& idx == 2 ==> n.boat_state == "NONE"@ && !n.has_boat_angle
            &&& idx != 2 ==> n.boat_state == d.boat_state && n.boat_angle == d.boat_angle
            &&& idx == 3 ==> !n.blind.enabled && !n.blind.has_result
            &&& idx != 3 ==> n.blind == d.blind
        }),
{
}

/// Each stream has its own name and path; the path names what it is about.
pub proof fn law_stream_names(i: usize, name: &'static str, path: &'static str)
    requires
        i < 4,
        call_ensures(stream_name, (i,), name),
        call_ensures(stream_path, (i,), path),
    ensures
        i == 0 ==> name@ == "stronghold"@ && path@ == "/api/v1/stronghold/events"@,
        i == 1 ==> name@ == "info"@ && path@ == "/api/v1/information-messages/events"@,
        i == 2 ==> name@ == "boat"@ && path@ == "/api/v1/boat/events"@,
        i == 3 ==> name@ == "blind"@ && path@ == "/api/v1/blind/events"@,
{
}

/// While any stream is up the client counts as connected; with none it is
/// offline after an error and connecting before one.
pub proof fn law_client_state(c: ClientView, i: int)
    requires
        c.connected.len() == 4,
        0 <= i < 4,
    ensures
        !c.running ==> state_of(c) is Stopped,
        c.running && c.connected[i] ==> state_of(c) is Connected,
        c.running && c.connected == seq![false, false, false, false] ==> (state_of(c) is Offline
            <==> c.last_error.len() > 0) && (state_of(c) is Connecting <==> c.last_error.len()
            == 0),
{
}

/// A stream that goes up or down changes its own mark only; the error of the
/// last failure is shown until all streams are up.
pub proof fn law_streams_are_marked(
    c: ClientView,
    idx: int,
    other: int,
    error: Seq<char>,
)
    requires
        c.connected.len() == 4,
        0 <= idx < 4,
        0 <= other < 4,
        other != idx,
    ensures
        ({
            let up = stream_up(c, c.generation, idx);
            let down = stream_down(c, c.generation, idx, error);
            &&& up.connected[idx] && up.connected[other] == c.connected[other]
            &&& !down.connected[idx] && down.connected[other] == c.connected[other]
            &&& down.last_error == error
            &&& !c.connected[other] ==> up.last_error == c.last_error
            &&& up.running == c.running && up.api_base_url == c.api_base_url
            &&& down.running == c.running && down.api_base_url == c.api_base_url
        }),
{
}

/// The headers end with an empty line, and the body comes in chunks where the
/// transfer encoding says so, however it is written; other headers do not matter.
pub proof fn law_headers(line: Seq<char>)
    ensures
        trimmed(line).len() == 0 ==> header_of(line) is End,
        lower(trimmed(line)) == "transfer-encoding: chunked"@ ==> header_of(line) is Chunked,
        trimmed(line).len() > 0 && !contains(lower(trimmed(line)), "chunked"@) ==> header_of(
            line,
        ) is Other,
        trimmed(line).len() > 0 && lower(trimmed(line))[0] != 't' ==> header_of(line) is Other,
{
    reveal_strlit("transfer-encoding: chunked");
    reveal_strlit("transfer-encoding:");
    reveal_strlit("chunked");
    let l = lower(trimmed(line));
    let h = "transfer-encoding: chunked"@;
    assert(h.subrange(0, 18) =~= "transfer-encoding:"@);
    assert(h.subrange(19, 26) =~= "chunked"@);
    assert(matches_at(h, "chunked"@, 19));
    lemma_find_from(h, "chunked"@, 0);
    if matches_at(l, "transfer-encoding:"@, 0) {
        assert(l.subrange(0, 18)[0] == l[0]);
    }
}

/// A data line adds what follows its name, without the one blank that may stand
/// there; an empty line ends an event, whose lines are joined with line feeds.
pub proof fn law_data_lines(data: Seq<Seq<char>>, v: Seq<char>, a: Seq<char>, b: Seq<char>)
    requires
        v.len() == 0 || (v.last() != '\r' && v[0] != ' '),
    ensures
        fed(data, "data:"@ + v) == data.push(v),
        fed(data, "data: "@ + v) == data.push(v),
        fed(data, Seq::empty()).len() == 0,
        completed(seq![a], Seq::empty()) == Some(a),
        completed(seq![a, b], Seq::empty()) == Some(a + seq!['\n'] + b),
        completed(Seq::empty(), Seq::empty()) is None,
        completed(data, "data:"@ + v) is None,
{
    reveal_strlit("data:");
    reveal_strlit("data: ");
    let x = "data:"@ + v;
    let y = "data: "@ + v;
    assert(x.subrange(0, 5) =~= "data:"@);
    assert(y.subrange(0, 5) =~= "data:"@);
    assert(x.subrange(5, x.len() as int) =~= v);
    assert(y.subrange(6, y.len() as int) =~= v);
    assert(without_cr(x) == x);
    assert(without_cr(y) == y);
    if v.len() > 0 {
        assert(x[5] == v[0]);
    }
    assert(seq![a, b].drop_last() =~= seq![a]);
}

} // verus!
