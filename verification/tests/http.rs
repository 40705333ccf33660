use squeezed::audio::AudioFormat;
use squeezed::buffer::{BroadcastBuffer, RecvResult, MAX_BUFFERED};
use squeezed::http::{
    attach, deliver, first_line_of, parse_session_id, request_complete, request_line,
    response_head, Delivery,
};
use squeezed::sync::SyncManager;

fn manager() -> SyncManager {
    SyncManager::new(AudioFormat { sample_rate: 44100, channels: 2, bits: 16 }, true)
}

#[test]
fn request_ends_at_an_empty_line() {
    assert!(!request_complete(b""));
    assert!(!request_complete(b"GET / HTTP/1.0\r\n"));
    assert!(!request_complete(b"GET / HTTP/1.0\r\n\r"));
    assert!(request_complete(b"GET / HTTP/1.0\r\n\r\n"));
    assert!(request_complete(b"GET / HTTP/1.0\n\n"));
    assert!(!request_complete(&vec![b'x'; 8192]));
    assert!(request_complete(&vec![b'x'; 8193]));
}

#[test]
fn request_line_is_the_first_line() {
    assert_eq!(request_line(b"GET /a HTTP/1.0\r\nHost: x\r\n\r\n"), "GET /a HTTP/1.0");
    assert_eq!(request_line(b"GET /a HTTP/1.0\n\n"), "GET /a HTTP/1.0");
    assert_eq!(request_line(b""), "");
    assert_eq!(request_line(b"\r\n\r\n"), "");
    // What is not valid UTF-8 is replaced.
    assert_eq!(request_line(b"GET /\xff HTTP/1.0\n\n"), "GET /\u{fffd} HTTP/1.0");
    assert_eq!(request_line("GET /é\n\n".as_bytes()), "GET /é");
}

#[test]
fn first_line_keeps_a_bare_carriage_return() {
    assert_eq!(first_line_of("a\rb"), "a\rb");
    assert_eq!(first_line_of("a\r"), "a\r");
    assert_eq!(first_line_of("a\r\nb"), "a");
    assert_eq!(first_line_of("\nb"), "");
}

#[test]
fn session_id_is_found_in_the_query() {
    assert_eq!(
        parse_session_id("GET /stream.pcm?player=00:04:20:12:34:56&sid=17 HTTP/1.0"),
        Some(17)
    );
    assert_eq!(parse_session_id("GET /stream.pcm?sid=18446744073709551615 HTTP/1.0"), Some(u64::MAX));
    assert_eq!(parse_session_id("  GET   /x?sid=+5"), Some(5));
    assert_eq!(parse_session_id("GET /x?sid=a&sid=6 HTTP/1.0"), Some(6));
    assert_eq!(parse_session_id("GET /x?y?sid=6&sid=7"), Some(7));
}

#[test]
fn session_id_is_missing_or_malformed() {
    assert_eq!(parse_session_id(""), None);
    assert_eq!(parse_session_id("GET"), None);
    assert_eq!(parse_session_id("GET /stream.pcm HTTP/1.0"), None);
    assert_eq!(parse_session_id("GET /stream.pcm?player=1 HTTP/1.0"), None);
    assert_eq!(parse_session_id("GET /x?sid= HTTP/1.0"), None);
    assert_eq!(parse_session_id("GET /x?sid=-1 HTTP/1.0"), None);
    assert_eq!(parse_session_id("GET /x?sid=+ HTTP/1.0"), None);
    assert_eq!(parse_session_id("GET /x?sid=18446744073709551616 HTTP/1.0"), None);
    assert_eq!(parse_session_id("GET /x?xsid=1 HTTP/1.0"), None);
}

#[test]
fn response_head_is_complete() {
    assert!(response_head().starts_with("HTTP/1.0 200 OK\r\n"));
    assert!(request_complete(response_head().as_bytes()));
}

#[test]
fn client_is_anchored_where_its_stream_begins() {
    let mut buf = BroadcastBuffer::new(MAX_BUFFERED);
    buf.push(&[0u8; 1000]);
    let rx = buf.subscribe();
    let mut m = manager();
    m.add_player(3, "aa".to_string(), "x".to_string());
    attach(Some(3), &rx, &mut m);
    assert_eq!(m.http_start(3), Some(1000));
    attach(None, &rx, &mut m);
    assert_eq!(m.http_start(3), Some(1000));
}

#[test]
fn skipped_bytes_move_the_origin() {
    let mut m = manager();
    m.add_player(3, "aa".to_string(), "x".to_string());
    m.set_http_start(3, 1000);
    let next = deliver(
        Some(3),
        RecvResult::Data { chunk: vec![1, 2], skipped_bytes: 64 },
        &mut m,
    );
    assert!(matches!(next, Delivery::Write(ref c) if *c == vec![1, 2]));
    assert_eq!(m.http_start(3), Some(1064));
    let next = deliver(Some(3), RecvResult::Data { chunk: vec![3], skipped_bytes: 0 }, &mut m);
    assert!(matches!(next, Delivery::Write(_)));
    assert_eq!(m.http_start(3), Some(1064));
    assert!(matches!(deliver(Some(3), RecvResult::Closed, &mut m), Delivery::Finish));
}
