use tuxinjector::json::parse_json;
use tuxinjector::nbb_client::{
    address_text, apply_config, apply_event, bad_url_error, check_status_line, chunk_error,
    dispatch_event, get_status, is_active, mark_connected, mark_disconnected, normalize_base_url,
    on_stream_error, on_stream_timeout, parse_base_url, read_chunk_line, read_header, restart, start, stop,
    stream_event, stream_name, stream_path, stream_request, ChunkLine, ConfigStep, HeaderLine,
    NbbClient, NbbState, SseAccumulator, StreamEvent,
};
use tuxinjector::nbb_data::{NinjabrainData, StrongholdMath};

#[test]
fn sse_framing() {
    let mut a = SseAccumulator::new();
    assert_eq!(a.feed_line("event: message"), None);
    assert_eq!(a.feed_line("data: {\"a\":1}"), None);
    assert_eq!(a.feed_line(""), Some("{\"a\":1}".to_string()));
    assert_eq!(a.feed_line("data: line1"), None);
    assert_eq!(a.feed_line("data:line2"), None);
    assert_eq!(a.feed_line("\r"), Some("line1\nline2".to_string()));
    assert_eq!(a.feed_line(": keepalive"), None);
    assert_eq!(a.feed_line(""), None);
    assert_eq!(a.feed_line("data: x\r"), None);
    assert_eq!(a.feed_line(""), Some("x".to_string()));
}

#[test]
fn base_url_parsing() {
    assert_eq!(normalize_base_url("  http://127.0.0.1:52533/ "), "http://127.0.0.1:52533");
    assert_eq!(normalize_base_url(""), "http://127.0.0.1:52533");
    assert_eq!(parse_base_url("http://127.0.0.1:52533"), Some(("127.0.0.1".into(), 52533)));
    assert_eq!(parse_base_url("http://localhost"), Some(("localhost".into(), 80)));
    assert_eq!(parse_base_url("http://"), None);
}

#[test]
fn addresses_may_carry_a_path_or_a_bad_port() {
    assert_eq!(parse_base_url("http://h:1/x/y"), Some(("h".into(), 1)));
    assert_eq!(parse_base_url("h:65536"), None);
    assert_eq!(parse_base_url("h:"), None);
}

#[test]
fn payloads_are_fed_line_by_line() {
    let mut a = SseAccumulator::new();
    assert_eq!(a.feed_payload("data: 1\n\ndata: 2\ndata: 3\n\nda"), vec!["1", "2\n3"]);
}

fn no_math() -> StrongholdMath {
    StrongholdMath { correction_delta: 0, angle_diff: 0, angles: Vec::new() }
}

#[test]
fn sessions_follow_the_configuration() {
    let mut c = NbbClient::new();
    let mut d = NinjabrainData::default();
    assert_eq!(get_status(&c).state, NbbState::Stopped);
    let g = match apply_config(&mut c, &mut d, true, "http://h:1/") {
        ConfigStep::Started(g) => g,
        other => panic!("{other:?}"),
    };
    assert_eq!(c.api_base_url, "http://h:1");
    assert!(is_active(&c, g));
    assert_eq!(get_status(&c).state, NbbState::Connecting);
    assert_eq!(apply_config(&mut c, &mut d, true, "http://h:1"), ConfigStep::Unchanged);
    mark_connected(&mut c, g, 2);
    assert_eq!(get_status(&c).state, NbbState::Connected);
    mark_disconnected(&mut c, g, 2, "gone");
    assert_eq!(get_status(&c).state, NbbState::Offline);
    assert_eq!(get_status(&c).last_error, "gone");
    let h = restart(&mut c, &mut d, "http://h:1");
    assert!(!is_active(&c, g) && is_active(&c, h));
    assert_eq!(apply_config(&mut c, &mut d, false, "http://h:1"), ConfigStep::Stopped);
    assert_eq!(get_status(&c).state, NbbState::Stopped);
    stop(&mut c);
    let k = start(&mut c, &mut d, "");
    assert!(is_active(&c, k));
    assert_eq!(get_status(&c).api_base_url, "http://127.0.0.1:52533");
}

#[test]
fn stale_sessions_change_nothing() {
    let mut c = NbbClient::new();
    let mut d = NinjabrainData::default();
    let old = start(&mut c, &mut d, "");
    let new = restart(&mut c, &mut d, "");
    assert!(old != new);
    mark_connected(&mut c, old, 0);
    assert_eq!(get_status(&c).state, NbbState::Connecting);
    assert!(dispatch_event(&c, old, 2, "{\"boatState\": \"VALID\"}").is_none());
    d.boat_state = "VALID".into();
    assert!(!on_stream_error(&mut c, &mut d, old, 2, false, true, "e", 5));
    assert_eq!(d.boat_state, "VALID");
    assert!(!on_stream_error(&mut c, &mut d, new, 2, true, true, "e", 5));
    assert_eq!(d.boat_state, "VALID");
    assert!(on_stream_error(&mut c, &mut d, new, 2, false, true, "e", 5));
    assert_eq!(d.boat_state, "NONE");
    assert_eq!(get_status(&c).last_error, "e");
}

#[test]
fn a_silent_stream_is_opened_again_quietly() {
    let mut c = NbbClient::new();
    let mut d = NinjabrainData::default();
    let g = start(&mut c, &mut d, "");
    mark_connected(&mut c, g, 2);
    let before = get_status(&c);
    assert!(on_stream_timeout(&c, g, false));
    assert!(!on_stream_timeout(&c, g, true));
    assert!(!on_stream_timeout(&c, g + 1, false));
    let after = get_status(&c);
    assert_eq!(after.state, before.state);
    assert_eq!(after.last_error, before.last_error);
}

#[test]
fn events_reach_the_data() {
    let mut c = NbbClient::new();
    let mut d = NinjabrainData::default();
    let g = start(&mut c, &mut d, "");
    let boat = (0..4).find(|i| stream_name(*i) == "boat").unwrap();
    assert!(dispatch_event(&c, g, boat, "no json").is_none());
    let e = dispatch_event(&c, g, boat, "{\"boatState\": \"VALID\", \"boatAngle\": 3}").unwrap();
    assert!(matches!(e, StreamEvent::Boat(_)));
    apply_event(&mut d, e, &no_math(), 77);
    assert_eq!(d.boat_state, "VALID");
    assert_eq!(d.last_update, Some(77));
    assert!(stream_path(boat).starts_with("/api/"));
    let e = stream_event(0, parse_json("{\"resultType\": \"NONE\"}").unwrap());
    assert!(matches!(e, StreamEvent::Stronghold(_)));
}

#[test]
fn replies_are_read() {
    assert_eq!(check_status_line("HTTP/1.1 200 OK\r\n"), Ok(()));
    assert_eq!(
        check_status_line("HTTP/1.1 404 Not Found\r\n"),
        Err("HTTP error: HTTP/1.1 404 Not Found".to_string())
    );
    assert_eq!(read_header("Transfer-Encoding: chunked\r\n"), HeaderLine::Chunked);
    assert_eq!(read_header("Content-Type: text/plain\r\n"), HeaderLine::Other);
    assert_eq!(read_header("\r\n"), HeaderLine::End);
    assert_eq!(read_chunk_line("1a\r\n"), ChunkLine::Size(26));
    assert_eq!(read_chunk_line("0\r\n"), ChunkLine::Ended);
    assert_eq!(read_chunk_line("zz\r\n"), ChunkLine::Bad);
    assert_eq!(chunk_error(ChunkLine::Bad), "bad chunk size");
    assert_eq!(chunk_error(ChunkLine::Ended), "stream ended");
    assert_eq!(bad_url_error("x"), "invalid API base url: x");
    assert_eq!(address_text("h", 8), "h:8");
    assert!(stream_request("/p", "h", 8).starts_with("GET /p HTTP/1.1\r\nHost: h:8\r\n"));
}

#[test]
fn regular_addresses_stay() {
    for url in ["", "   ", " http://h:1// ", "http://h/a/", "h"] {
        let once = normalize_base_url(url);
        assert_eq!(normalize_base_url(&once), once);
    }
    assert_eq!(normalize_base_url(" http://h:1// "), "http://h:1");
    assert_eq!(normalize_base_url(" / "), "http://127.0.0.1:52533");
}
