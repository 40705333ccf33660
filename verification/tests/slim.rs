use squeezed::align::{Action, Correction};
use squeezed::audio::AudioFormat;
use squeezed::http::{parse_session_id, request_complete, request_line};
use squeezed::slim::{
    audg, begin_session, classify, client_header, correction_packet, greet, handle_packet,
    handle_packet_at, parse_helo_mac, parse_helo_name, probe, read_u32_be, server_packet, strm_command, strm_start,
    ClientEvent, Hello, SessionNext, DSCO, HELO, STAT,
};
use squeezed::sync::{server_ms, SyncManager};

const CD: AudioFormat = AudioFormat { sample_rate: 44100, channels: 2, bits: 16 };

fn helo_body(caps: &[u8]) -> Vec<u8> {
    let mut body = vec![0u8; 36];
    body[2..8].copy_from_slice(&[0x00, 0x04, 0x20, 0xab, 0xcd, 0xef]);
    body.extend_from_slice(caps);
    body
}

fn stmt_body(jiffies: u32, elapsed: u32, server_ts: u32) -> Vec<u8> {
    let mut body = vec![0u8; 53];
    body[..4].copy_from_slice(b"STMt");
    body[25..29].copy_from_slice(&jiffies.to_be_bytes());
    body[43..47].copy_from_slice(&elapsed.to_be_bytes());
    body[47..51].copy_from_slice(&server_ts.to_be_bytes());
    body
}

#[test]
fn client_header_has_opcode_and_length() {
    assert_eq!(client_header(b"HELO\x00\x00\x01\x02"), (*b"HELO", 258));
    assert_eq!(client_header(b"STAT\xff\xff\xff\xff"), (*b"STAT", u32::MAX));
}

#[test]
fn packet_is_framed_with_its_length() {
    assert_eq!(server_packet(b"strm", b"xyz"), b"\x00\x07strmxyz");
    assert_eq!(server_packet(b"strm", b""), b"\x00\x04strm");
    let long = server_packet(b"strm", &vec![0u8; 65531]);
    assert_eq!(&long[..2], b"\xff\xff");
    assert_eq!(long.len(), 2 + 65535);
    // The length is 16 bits wide.
    let longer = server_packet(b"strm", &vec![0u8; 65532]);
    assert_eq!(&longer[..2], b"\x00\x00");
}

#[test]
fn strm_start_describes_format_and_url() {
    let packet = strm_start(9000, &CD, "00:04:20:ab:cd:ef", 17);
    let request = b"GET /stream.pcm?player=00:04:20:ab:cd:ef&sid=17 HTTP/1.0\r\n\r\n";
    let mut expected = vec![0, (4 + 24 + request.len()) as u8];
    expected.extend_from_slice(b"strms1p1321\xff\x00\x000\x00\x00\x00");
    expected.extend_from_slice(&[0, 1, 0, 0]);
    expected.extend_from_slice(&9000u16.to_be_bytes());
    expected.extend_from_slice(&[0, 0, 0, 0]);
    expected.extend_from_slice(request);
    assert_eq!(packet, expected);
}

#[test]
fn player_is_recognised_by_its_request() {
    let mac = parse_helo_mac(&helo_body(b""));
    for sid in [0u64, 17, u64::MAX] {
        let packet = strm_start(9000, &CD, &mac, sid);
        let request = &packet[30..];
        assert!(request_complete(request));
        assert_eq!(parse_session_id(&request_line(request)), Some(sid));
    }
}

#[test]
fn command_carries_its_value() {
    let packet = strm_command(b't', 0x0102_0304);
    assert_eq!(packet.len(), 30);
    assert_eq!(&packet[..7], b"\x00\x1cstrmt");
    assert_eq!(&packet[20..24], &[1, 2, 3, 4]);
    assert_eq!(read_u32_be(&packet[6..], 14), 0x0102_0304);
    assert_eq!(probe(0x0102_0304), packet);
}

#[test]
fn gain_is_unity() {
    assert_eq!(audg(), b"\x00\x0daudg\x00\x01\x00\x00\x00\x01\x00\x00\x00");
}

#[test]
fn corrections_become_commands() {
    let pause = Correction { sid: 1, action: Action::Pause(42), error: 50 };
    assert_eq!(correction_packet(&pause), strm_command(b'p', 42));
    let skip = Correction { sid: 1, action: Action::Skip(2000), error: -3000 };
    assert_eq!(correction_packet(&skip), strm_command(b'a', 2000));
}

#[test]
fn number_past_the_end_reads_zero() {
    assert_eq!(read_u32_be(&[1, 2, 3, 4], 0), 0x0102_0304);
    assert_eq!(read_u32_be(&[1, 2, 3, 4], 1), 0);
    assert_eq!(read_u32_be(&[], 0), 0);
    assert_eq!(read_u32_be(&[9, 0xff, 0xff, 0xff, 0xff], 1), u32::MAX);
}

#[test]
fn helo_tells_the_mac() {
    assert_eq!(parse_helo_mac(&helo_body(b"")), "00:04:20:ab:cd:ef");
    assert_eq!(parse_helo_mac(&[0u8; 7]), "000000000000");
}

#[test]
fn helo_may_tell_a_name() {
    let name = |caps: &[u8]| parse_helo_name(&helo_body(caps));
    assert_eq!(name(b"Model=x,Name=Kitchen,y=1"), Some("Kitchen".to_string()));
    assert_eq!(name(b"Name=K\xc3\xbcche\0\0"), Some("K\u{fc}che".to_string()));
    assert_eq!(name(b"Name=,Name=B"), Some("B".to_string()));
    assert_eq!(name(b"XName=A"), None);
    assert_eq!(name(b"Name="), None);
    assert_eq!(name(b""), None);
    // Not valid UTF-8.
    assert_eq!(name(b"Name=A\xff"), None);
}

#[test]
fn session_begins_with_helo() {
    let hello = greet(&HELO, &helo_body(b"Name=Kitchen")).unwrap();
    assert_eq!((hello.mac.as_str(), hello.name.as_str()), ("00:04:20:ab:cd:ef", "Kitchen"));
    let hello = greet(&HELO, &helo_body(b"")).unwrap();
    assert_eq!(hello.name, hello.mac);
    assert!(greet(&STAT, &helo_body(b"")).is_none());
}

#[test]
fn session_registers_the_player() {
    let mut m = SyncManager::new(CD, true);
    let hello = |name: &str| Hello { mac: "aa".to_string(), name: name.to_string() };
    let first = begin_session(1, hello("x"), 9000, &CD, &mut m);
    assert_eq!(first.start, strm_start(9000, &CD, "aa", 1));
    assert_eq!(first.gain, audg());
    assert!(!first.shared_mac);
    assert!(begin_session(2, hello("y"), 9000, &CD, &mut m).shared_mac);
}

#[test]
fn packets_are_told_apart() {
    assert!(matches!(
        classify(&STAT, &stmt_body(1, 2, 3)),
        ClientEvent::Timing { jiffies: 1, elapsed_ms: 2, server_ts: 3 }
    ));
    // A short report lacks what it does not hold.
    assert!(matches!(
        classify(&STAT, &stmt_body(1, 2, 3)[..30]),
        ClientEvent::Timing { jiffies: 1, elapsed_ms: 0, server_ts: 0 }
    ));
    assert!(matches!(classify(&STAT, b"STMs"), ClientEvent::Other));
    assert!(matches!(classify(&STAT, b"STM"), ClientEvent::Other));
    assert!(matches!(classify(&DSCO, b""), ClientEvent::Disconnect));
    assert!(matches!(classify(b"BYE!", b""), ClientEvent::Other));
}

#[test]
fn reports_lead_to_corrections() {
    let mut m = SyncManager::new(CD, true);
    for sid in [1, 2] {
        let hello = Hello { mac: format!("{sid}"), name: format!("{sid}") };
        begin_session(sid, hello, 9000, &CD, &mut m);
        m.set_http_start(sid, 0);
    }
    // A probe from right now, answered at once by clocks like ours.
    let ts = server_ms() | 1;
    let first = handle_packet(1, &STAT, &stmt_body(ts, 4000, ts), &mut m);
    assert!(matches!(first, SessionNext::Correct(ref r) if r.corrections.is_empty()));
    match handle_packet(2, &STAT, &stmt_body(ts, 3000, ts), &mut m) {
        SessionNext::Correct(round) => {
            assert_eq!(round.corrections.len(), 1);
            assert_eq!(round.corrections[0].sid, 1);
            assert!(matches!(round.corrections[0].action, Action::Pause(ms) if ms > 900));
        }
        _ => panic!("no corrections"),
    }
    assert!(matches!(handle_packet(2, b"IR  ", b"", &mut m), SessionNext::Continue));
    assert_eq!(m.http_start(2), Some(0));
}

#[test]
fn dropped_stream_forgets_the_anchor() {
    let mut m = SyncManager::new(CD, true);
    for sid in [1, 2] {
        let hello = Hello { mac: format!("{sid}"), name: format!("{sid}") };
        begin_session(sid, hello, 9000, &CD, &mut m);
        m.set_http_start(sid, 0);
    }
    let report = |m: &mut SyncManager, sid, elapsed| {
        let body = stmt_body(50_000, elapsed, 99_990);
        match handle_packet_at(sid, &STAT, &body, 100_000, 100_001, m) {
            SessionNext::Correct(round) => {
                assert_eq!(round.now, 100_001);
                round.corrections
            }
            SessionNext::Continue => panic!("no round"),
        }
    };
    assert!(report(&mut m, 1, 4000).is_empty());
    let out = report(&mut m, 2, 3000);
    assert_eq!(out.len(), 1);
    assert_eq!((out[0].sid, out[0].action), (1, Action::Pause(992)));
    // The session goes on, without an anchor.
    assert!(matches!(
        handle_packet_at(2, &DSCO, b"", 100_000, 100_000, &mut m),
        SessionNext::Continue
    ));
    assert_eq!((m.http_start(1), m.http_start(2)), (Some(0), None));
    assert!(report(&mut m, 1, 4000).is_empty());
    // A fresh stream attaches; a leftover report does not anchor it, a young one does.
    m.set_http_start(2, 0);
    assert_eq!(m.http_start(2), Some(0));
    assert!(report(&mut m, 2, 20_000).is_empty());
    assert_eq!(report(&mut m, 2, 3000).len(), 1);
    // Of an unknown session nothing is heard.
    assert!(matches!(handle_packet(9, &DSCO, b"", &mut m), SessionNext::Continue));
    assert_eq!(m.http_start(9), None);
}
