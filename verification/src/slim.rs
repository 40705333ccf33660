//! The SlimProto side: the control connection of a player.
//!
//! Each Squeezelite instance connects, sends `HELO`, and we reply with a `strm`
//! "start" command describing the raw-PCM format and pointing it at our HTTP
//! endpoint (with its MAC and session id in the URL so the HTTP side can
//! correlate the two connections). From then on `strm 't'` is sent once per
//! second: this both keeps Squeezelite's watchdog quiet and solicits a `STMt`
//! timing report, which we feed to the [`SyncManager`] for multiroom alignment.

use crate::align::{Action, Correction};
use crate::audio::{law_codes_read_back, AudioFormat, ASCII_ZERO, SAMPLE_RATES};
use crate::http::{first_line, is_complete, is_space, lemma_word_len, query_sid, second_word};
use crate::http::{session_id, skip_spaces};
use crate::bytes::{append, append_be16, append_be32, be16, be32, be32_value, join_be32};
use crate::sync::{server_ms, PlayerModel, Round, SyncManager, SyncModel};
use crate::text::{append_decimal, append_hex2, begins_with, chars_of, decimal, find_char};
use crate::text::{first_of, has_prefix, hex2, law_decimal_reads_back, law_hex_reads_back};
use crate::text::{lemma_first_of, lemma_first_of_range, utf8_text};
use vstd::prelude::*;
use vstd::slice::slice_subrange;
use vstd::string::*;
use vstd::utf8::*;

verus! {

/// `HELO`: a player introduces itself.
pub const HELO: [u8; 4] = [0x48, 0x45, 0x4c, 0x4f];

/// `STAT`: a player reports its status.
pub const STAT: [u8; 4] = [0x53, 0x54, 0x41, 0x54];

/// `DSCO`: a player's HTTP stream dropped.
pub const DSCO: [u8; 4] = [0x44, 0x53, 0x43, 0x4f];

/// `STMt`: the status event that carries a player's timing.
pub const STMT: [u8; 4] = [0x53, 0x54, 0x4d, 0x74];

/// `strm`: control of a player's stream.
pub const STRM: [u8; 4] = [0x73, 0x74, 0x72, 0x6d];

/// `audg`: a player's audio gain.
pub const AUDG: [u8; 4] = [0x61, 0x75, 0x64, 0x67];

/// Unity gain, as a 16.16 fixed-point number.
pub const UNITY_GAIN: u32 = 0x0001_0000;

/// Where in a `HELO` body the capabilities begin.
pub const CAP_OFFSET: usize = 36;

/// Where in a `STMt` body the player's clock stands.
pub const JIFFIES_OFFSET: usize = 25;

/// Where in a `STMt` body the playing time stands, in ms.
pub const ELAPSED_OFFSET: usize = 43;

/// Where in a `STMt` body the echoed probe timestamp stands.
pub const SERVER_TS_OFFSET: usize = 47;

/// Whether two four-byte codes are the same.
fn same_code(a: &[u8; 4], b: &[u8; 4]) -> (same: bool)
    ensures
        same == (a@ == b@),
{
    let same: bool = a[0] == b[0] && a[1] == b[1] && a[2] == b[2] && a[3] == b[3];
    if same {
        assert(a@ =~= b@);
    }
    same
}

// ---------------------------------------------------------------------------
// Packets
// ---------------------------------------------------------------------------

/// Client to server framing: 4-byte opcode, 4-byte big-endian length, payload.
/// Gives the opcode and the length of the payload that follows.
pub fn client_header(head: &[u8; 8]) -> (header: ([u8; 4], u32))
    ensures
        header.0@ == head@.take(4),
        header.1 == be32_value(head@.skip(4)),
        header.1 == head@[4] * 0x100_0000 + head@[5] * 0x1_0000 + head@[6] * 0x100 + head@[7],
{
    let opcode: [u8; 4] = [head[0], head[1], head[2], head[3]];
    assert(opcode@ =~= head@.take(4));
    (opcode, join_be32(head[4], head[5], head[6], head[7]))
}

/// Server to client framing: 2-byte big-endian length of opcode and payload
/// (its low 16 bits), 4-byte opcode, payload.
pub open spec fn frame(opcode: Seq<u8>, payload: Seq<u8>) -> Seq<u8> {
    be16(((4 + payload.len()) % 0x1_0000) as u16) + opcode + payload
}

/// The length in front of a packet with a payload of `n` bytes.
fn packet_length(n: usize) -> (length: u16)
    ensures
        length == (4 + n) % 0x1_0000,
{
    let low: usize = n % 0x1_0000;
    if low >= 0xfffc {
        (low - 0xfffc) as u16
    } else {
        (low + 4) as u16
    }
}

/// Frame a packet for a client.
pub fn server_packet(opcode: &[u8; 4], payload: &[u8]) -> (packet: Vec<u8>)
    ensures
        packet@ == frame(opcode@, payload@),
        packet@.subrange(2, 6) == opcode@,
        packet@.skip(6) == payload@,
{
    proof {
        law_packet_holds_opcode_and_payload(opcode@, payload@);
    }
    let mut out: Vec<u8> = Vec::new();
    append_be16(&mut out, packet_length(payload.len()));
    append(&mut out, opcode);
    append(&mut out, payload);
    assert(out@ =~= frame(opcode@, payload@));
    out
}

/// The HTTP request that a player is told to make. MAC and session id in the
/// query string let the HTTP server correlate this player's two connections
/// (SlimProto control + HTTP audio).
pub open spec fn request_text(mac: Seq<char>, sid: u64) -> Seq<char> {
    "GET /stream.pcm?player="@ + mac + "&sid="@ + decimal(sid as nat) + " HTTP/1.0\r\n\r\n"@
}

/// The payload of the `strm` command that starts playback.
pub open spec fn start_payload(
    format: AudioFormat,
    http_port: u16,
    mac: Seq<char>,
    sid: u64,
) -> Seq<u8> {
    seq![
        's' as u8,
        '1' as u8,
        'p' as u8,
        format.bits_code() as u8,
        format.rate_code() as u8,
        ('0' as int + format.channels) as u8,
        '1' as u8,
        255,
        0,
        0,
        '0' as u8,
        0,
        0,
        0,
    ] + be32(UNITY_GAIN) + be16(http_port) + be32(0) + encode_utf8(request_text(mac, sid))
}

/// The HTTP request that a player is told to make.
fn stream_request(mac: &str, sid: u64) -> (request: String)
    ensures
        request@ == request_text(mac@, sid),
{
    let mut request: String = "GET /stream.pcm?player=".to_owned();
    request.append(mac);
    request.append("&sid=");
    append_decimal(&mut request, sid);
    request.append(" HTTP/1.0\r\n\r\n");
    request
}

/// The packet that starts a player: it describes the format and hands the
/// client its HTTP URL.
pub fn strm_start(http_port: u16, format: &AudioFormat, mac: &str, sid: u64) -> (packet: Vec<u8>)
    requires
        format.valid(),
    ensures
        packet@ == frame(STRM@, start_payload(*format, http_port, mac@, sid)),
        packet@.len() >= 30,
        8 * (packet@[9] - '0' as int + 1) == format.bits,
        0 <= packet@[10] - '0' as int && packet@[10] - ('0' as int) < 15,
        SAMPLE_RATES@[packet@[10] - '0' as int] == format.sample_rate,
        packet@[11] - '0' as int == format.channels,
        packet@[24] * 0x100 + packet@[25] == http_port,
{
    proof {
        law_start_packet_describes_the_stream(*format, http_port, mac@, sid);
        law_packet_holds_opcode_and_payload(
            STRM@,
            start_payload(*format, http_port, mac@, sid),
        );
    }
    let request: String = stream_request(mac, sid);
    let sample_size: u8 = format.sample_size_code().unwrap();
    let sample_rate: u8 = format.sample_rate_code().unwrap();
    let channels: u8 = format.channels_code().unwrap();
    let endianness: u8 = format.endianness_code();

    let mut payload: Vec<u8> = Vec::new();
    payload.push(0x73);  // command: start
    payload.push(ASCII_ZERO + 1);  // autostart: play once buffered; the sync engine aligns
    payload.push(0x70);  // format: raw PCM
    payload.push(sample_size);
    payload.push(sample_rate);
    payload.push(channels);
    payload.push(endianness);
    payload.push(255);  // in-threshold (KB) before autostart
    payload.push(0);  // spdif_enable
    payload.push(0);  // transition_period
    payload.push(ASCII_ZERO);  // transition_type: none
    payload.push(0);  // flags
    payload.push(0);  // output_threshold
    payload.push(0);  // slaves
    append_be32(&mut payload, UNITY_GAIN);  // replay_gain = 1.0
    append_be16(&mut payload, http_port);
    append_be32(&mut payload, 0);  // server_ip = 0: reuse slimproto IP
    append(&mut payload, request.as_str().as_bytes());
    assert(payload@ =~= start_payload(*format, http_port, mac@, sid));
    server_packet(&STRM, payload.as_slice())
}

/// The payload of a bare `strm` control command: the command letter, and the
/// value in the place of the replay gain.
pub open spec fn command_payload(command: u8, value: u32) -> Seq<u8> {
    seq![command] + seq![0u8; 13] + be32(value) + seq![0u8; 6]
}

/// A bare `strm` control command (`t`ickle / `a`skip / `p`ause / `u`npause)
/// whose `replay_gain` field carries `value` (a timestamp, interval, or skip).
pub fn strm_command(command: u8, value: u32) -> (packet: Vec<u8>)
    ensures
        packet@ == frame(STRM@, command_payload(command, value)),
{
    let mut payload: Vec<u8> = vec![command, 0, 0, 0, 0, 0, 0, 0, 0, 0, 0, 0, 0, 0];
    append_be32(&mut payload, value);  // replay_gain
    append_be16(&mut payload, 0);
    append_be32(&mut payload, 0);
    assert(payload@ =~= command_payload(command, value));
    server_packet(&STRM, payload.as_slice())
}

/// `audg` - unity gain on both channels. Sent once so playback isn't muted.
pub fn audg() -> (packet: Vec<u8>)
    ensures
        packet@ == frame(AUDG@, be32(UNITY_GAIN) + be32(UNITY_GAIN) + seq![0u8]),
        packet@ == seq![
            0u8,
            13,
            'a' as u8,
            'u' as u8,
            'd' as u8,
            'g' as u8,
            0,
            1,
            0,
            0,
            0,
            1,
            0,
            0,
            0,
        ],
{
    let mut payload: Vec<u8> = Vec::new();
    append_be32(&mut payload, UNITY_GAIN);  // left = 1.0
    append_be32(&mut payload, UNITY_GAIN);  // right = 1.0
    payload.push(0);
    assert(payload@ =~= be32(UNITY_GAIN) + be32(UNITY_GAIN) + seq![0u8]);
    assert(AUDG@ =~= seq!['a' as u8, 'u' as u8, 'd' as u8, 'g' as u8]);
    server_packet(&AUDG, payload.as_slice())
}

/// The big-endian number at `offset` of a packet, or 0 where the packet ends
/// before it does.
pub open spec fn u32_at(data: Seq<u8>, offset: int) -> u32 {
    if offset + 4 <= data.len() {
        be32_value(data.subrange(offset, offset + 4))
    } else {
        0
    }
}

/// The big-endian number at `offset` of a packet, or 0 where the packet ends
/// before it does.
pub fn read_u32_be(data: &[u8], offset: usize) -> (n: u32)
    ensures
        n == u32_at(data@, offset as int),
{
    if data.len() < 4 || offset > data.len() - 4 {
        return 0;
    }
    join_be32(data[offset], data[offset + 1], data[offset + 2], data[offset + 3])
}

// ---------------------------------------------------------------------------
// HELO body parsers (device_id, revision, mac[6], uuid[16], ... capabilities)
// ---------------------------------------------------------------------------

/// The MAC address in a `HELO` body, written out; twelve zeros where the body
/// is too short to hold one.
pub open spec fn mac_text(body: Seq<u8>) -> Seq<char> {
    if body.len() < 8 {
        "000000000000"@
    } else {
        hex2(body[2]) + seq![':'] + hex2(body[3]) + seq![':'] + hex2(body[4]) + seq![':'] + hex2(
            body[5],
        ) + seq![':'] + hex2(body[6]) + seq![':'] + hex2(body[7])
    }
}

/// The MAC address in a `HELO` body.
pub fn parse_helo_mac(body: &[u8]) -> (mac: String)
    ensures
        mac@ == mac_text(body@),
{
    if body.len() < 8 {
        return "000000000000".to_owned();
    }
    let mut mac = String::new();
    append_hex2(&mut mac, body[2]);
    proof {
        reveal_strlit(":");
        assert(":"@ =~= seq![':']);
        assert(mac@ =~= hex2(body@[2]));
    }
    mac.append(":");
    append_hex2(&mut mac, body[3]);
    mac.append(":");
    append_hex2(&mut mac, body[4]);
    mac.append(":");
    append_hex2(&mut mac, body[5]);
    mac.append(":");
    append_hex2(&mut mac, body[6]);
    mac.append(":");
    append_hex2(&mut mac, body[7]);
    mac
}

/// `s` without the NUL characters at its end.
pub open spec fn trim_nuls(s: Seq<char>) -> Seq<char>
    decreases s.len(),
{
    if s.len() > 0 && s.last() == '\0' {
        trim_nuls(s.drop_last())
    } else {
        s
    }
}

/// The value of the first `Name=` among comma-separated capabilities that is
/// not empty.
pub open spec fn name_in(caps: Seq<char>) -> Option<Seq<char>>
    decreases caps.len(),
{
    proof {
        lemma_first_of_range(caps, ',');
    }
    let at = first_of(caps, ',');
    let part = caps.take(at);
    if begins_with(part, seq!['N', 'a', 'm', 'e', '=']) && part.len() > 5 {
        Some(part.skip(5))
    } else if at == caps.len() {
        None
    } else {
        name_in(caps.skip(at + 1))
    }
}

/// The name that a player gives itself in a `HELO` body.
pub open spec fn helo_name(body: Seq<u8>) -> Option<Seq<char>> {
    let caps = body.skip(CAP_OFFSET as int);
    if body.len() <= CAP_OFFSET || !valid_utf8(caps) {
        None
    } else {
        name_in(trim_nuls(decode_utf8(caps)))
    }
}

/// How many characters are left of `s` without the NULs at its end.
fn trimmed_len(s: &[char]) -> (len: usize)
    ensures
        len <= s@.len(),
        s@.take(len as int) == trim_nuls(s@),
{
    let mut n: usize = s.len();
    assert(s@.take(n as int) =~= s@);
    while n > 0 && s[n - 1] == '\0'
        invariant
            n <= s@.len(),
            trim_nuls(s@) == trim_nuls(s@.take(n as int)),
        decreases n,
    {
        assert(s@.take(n as int).drop_last() =~= s@.take(n - 1));
        n -= 1;
    }
    n
}

/// The name that a player gives itself in a `HELO` body.
pub fn parse_helo_name(body: &[u8]) -> (name: Option<String>)
    ensures
        match name {
            Some(n) => helo_name(body@) == Some(n@),
            None => helo_name(body@) is None,
        },
{
    if body.len() <= CAP_OFFSET {
        return None;
    }
    let tail: &[u8] = slice_subrange(body, CAP_OFFSET, body.len());
    assert(tail@ =~= body@.skip(CAP_OFFSET as int));
    let text: &str = match utf8_text(tail) {
        Some(t) => t,
        None => return None,
    };
    let all: Vec<char> = chars_of(text);
    let end: usize = trimmed_len(all.as_slice());
    let caps: &[char] = slice_subrange(all.as_slice(), 0, end);
    assert(caps@ =~= all@.take(end as int));
    let prefix: Vec<char> = vec!['N', 'a', 'm', 'e', '='];
    assert(prefix@ =~= seq!['N', 'a', 'm', 'e', '=']);
    let mut start: usize = 0;
    assert(caps@.subrange(0, caps@.len() as int) =~= caps@);
    loop
        invariant
            start <= caps@.len(),
            caps@ == text@.take(end as int),
            end <= text@.len(),
            caps@.len() == end,
            prefix@ == seq!['N', 'a', 'm', 'e', '='],
            helo_name(body@) == name_in(caps@),
            name_in(caps@) == name_in(caps@.subrange(start as int, caps@.len() as int)),
        decreases caps@.len() - start,
    {
        let rest: &[char] = slice_subrange(caps, start, caps.len());
        let at: usize = find_char(rest, ',');
        let part: &[char] = slice_subrange(rest, 0, at);
        assert(part@ =~= rest@.take(at as int));
        if at > 5 && has_prefix(part, prefix.as_slice()) {
            let name: &str = text.substring_char(start + 5, start + at);
            assert(name@ =~= part@.skip(5));
            return Some(name.to_owned());
        }
        if at == rest.len() {
            return None;
        }
        assert(rest@.skip(at + 1) =~= caps@.subrange(start + at + 1, caps@.len() as int));
        start = start + at + 1;
    }
}

// ---------------------------------------------------------------------------
// Sessions
// ---------------------------------------------------------------------------

/// Who a player says it is.
pub struct Hello {
    pub mac: String,
    pub name: String,
}

/// A player's name, or its MAC where it has none.
pub open spec fn display_name(body: Seq<u8>) -> Seq<char> {
    match helo_name(body) {
        Some(name) => name,
        None => mac_text(body),
    }
}

/// The first packet of a connection has to be a `HELO`; a client that sends
/// anything else is dropped.
pub fn greet(opcode: &[u8; 4], body: &[u8]) -> (hello: Option<Hello>)
    ensures
        hello is Some <==> opcode@ == HELO@,
        hello is Some <==> opcode@ == seq!['H' as u8, 'E' as u8, 'L' as u8, 'O' as u8],
        hello matches Some(h) ==> h.mac@ == mac_text(body@) && h.name@ == display_name(body@),
{
    assert(HELO@ =~= seq!['H' as u8, 'E' as u8, 'L' as u8, 'O' as u8]);
    if !same_code(opcode, &HELO) {
        return None;
    }
    let mac: String = parse_helo_mac(body);
    let name: String = match parse_helo_name(body) {
        Some(n) => n,
        None => mac.clone(),
    };
    Some(Hello { mac, name })
}

/// What a new player is sent.
pub struct Greeting {
    /// Starts playback. Where it cannot be sent, the session is over.
    pub start: Vec<u8>,
    /// Sets the gain; of no consequence if lost.
    pub gain: Vec<u8>,
    /// Whether another session already uses the player's MAC.
    pub shared_mac: bool,
}

/// Register a player that has said `HELO`, and start its playback.
pub fn begin_session(
    sid: u64,
    hello: Hello,
    http_port: u16,
    format: &AudioFormat,
    manager: &mut SyncManager,
) -> (greeting: Greeting)
    requires
        old(manager)@.wf(),
        format.valid(),
    ensures
        final(manager)@.wf(),
        final(manager)@ == old(manager)@.with(
            sid,
            PlayerModel::fresh(hello.mac@, hello.name@),
        ),
        greeting.start@ == frame(STRM@, start_payload(*format, http_port, hello.mac@, sid)),
        greeting.gain@ == frame(AUDG@, be32(UNITY_GAIN) + be32(UNITY_GAIN) + seq![0u8]),
        greeting.shared_mac == exists|other: u64|
            old(manager)@.players.contains_key(other) && (
            #[trigger] old(manager)@.players[other]).mac == hello.mac@,
{
    let start: Vec<u8> = strm_start(http_port, format, hello.mac.as_str(), sid);
    let gain: Vec<u8> = audg();
    let shared_mac: bool = manager.add_player(sid, hello.mac, hello.name);
    Greeting { start, gain, shared_mac }
}

/// What a packet of a running session means.
pub enum ClientEvent {
    /// A timing report (`STMt`).
    Timing { jiffies: u32, elapsed_ms: u32, server_ts: u32 },
    /// The player's HTTP stream dropped (`DSCO`).
    Disconnect,
    /// Of no concern.
    Other,
}

/// What a packet of a running session means.
pub open spec fn event_of(opcode: Seq<u8>, body: Seq<u8>) -> ClientEvent {
    if opcode == STAT@ && body.len() >= 4 && body.take(4) == STMT@ {
        ClientEvent::Timing {
            jiffies: u32_at(body, JIFFIES_OFFSET as int),
            elapsed_ms: u32_at(body, ELAPSED_OFFSET as int),
            server_ts: u32_at(body, SERVER_TS_OFFSET as int),
        }
    } else if opcode == DSCO@ {
        ClientEvent::Disconnect
    } else {
        ClientEvent::Other
    }
}

/// Make out what a packet of a running session means.
pub fn classify(opcode: &[u8; 4], body: &[u8]) -> (event: ClientEvent)
    ensures
        event == event_of(opcode@, body@),
{
    assert(STAT@[0] != DSCO@[0]);
    if same_code(opcode, &STAT) && body.len() >= 4 {
        let code: [u8; 4] = [body[0], body[1], body[2], body[3]];
        assert(code@ =~= body@.take(4));
        if same_code(&code, &STMT) {
            return ClientEvent::Timing {
                jiffies: read_u32_be(body, JIFFIES_OFFSET),
                elapsed_ms: read_u32_be(body, ELAPSED_OFFSET),
                server_ts: read_u32_be(body, SERVER_TS_OFFSET),
            };
        }
    }
    if same_code(opcode, &DSCO) {
        return ClientEvent::Disconnect;
    }
    ClientEvent::Other
}

/// How a session goes on. It ends with its connection, not with a packet.
pub enum SessionNext {
    /// Send these corrections, and read the next packet.
    Correct(Round),
    /// Read the next packet.
    Continue,
}

/// Whether a packet that came at `recv_ms` leads from one state of the sync
/// engine to another, and the session to `next`: a timing report becomes a sync
/// update, and a player whose HTTP stream dropped loses its anchor until a
/// fresh stream attaches.
pub open spec fn session_step(
    before: SyncModel,
    sid: u64,
    event: ClientEvent,
    recv_ms: u32,
    after: SyncModel,
    next: SessionNext,
) -> bool {
    match event {
        ClientEvent::Timing { jiffies, elapsed_ms, server_ts } => {
            &&& next matches SessionNext::Correct(round)
            &&& before.answered(
                sid,
                jiffies,
                elapsed_ms,
                server_ts,
                recv_ms,
                after,
                round.now,
                round.corrections@,
            )
        },
        ClientEvent::Disconnect => {
            &&& next == SessionNext::Continue
            &&& after == (if before.players.contains_key(sid) {
                before.with(sid, before.players[sid].detached())
            } else {
                before
            })
        },
        ClientEvent::Other => next == SessionNext::Continue && after == before,
    }
}

/// Handle a packet of a running session: turn `STMt` timing reports into sync
/// updates, and forget the anchor of a player whose HTTP stream dropped.
pub fn handle_packet(
    sid: u64,
    opcode: &[u8; 4],
    body: &[u8],
    manager: &mut SyncManager,
) -> (next: SessionNext)
    requires
        old(manager)@.wf(),
    ensures
        final(manager)@.wf(),
        exists|recv_ms: u32| #[trigger]
            session_step(
                old(manager)@,
                sid,
                event_of(opcode@, body@),
                recv_ms,
                final(manager)@,
                next,
            ),
{
    let recv_ms: u32 = server_ms();
    let now: u32 = server_ms();
    handle_packet_at(sid, opcode, body, recv_ms, now, manager)
}

/// Handle a packet that came when our clock read `recv_ms`, and is acted upon
/// when it reads `now`.
pub fn handle_packet_at(
    sid: u64,
    opcode: &[u8; 4],
    body: &[u8],
    recv_ms: u32,
    now: u32,
    manager: &mut SyncManager,
) -> (next: SessionNext)
    requires
        old(manager)@.wf(),
    ensures
        final(manager)@.wf(),
        session_step(
            old(manager)@,
            sid,
            event_of(opcode@, body@),
            recv_ms,
            final(manager)@,
            next,
        ),
        next matches SessionNext::Correct(round) ==> round.now == now,
{
    match classify(opcode, body) {
        ClientEvent::Timing { jiffies, elapsed_ms, server_ts } => {
            let corrections: Vec<Correction> = manager.on_stmt_at(
                sid,
                jiffies,
                elapsed_ms,
                server_ts,
                recv_ms,
                now,
            );
            SessionNext::Correct(Round { now, corrections })
        },
        ClientEvent::Disconnect => {
            manager.clear_http_start(sid);
            SessionNext::Continue
        },
        ClientEvent::Other => SessionNext::Continue,
    }
}

/// The once-per-second probe: timing solicitation and watchdog in one.
pub fn probe(now: u32) -> (packet: Vec<u8>)
    ensures
        packet@ == frame(STRM@, command_payload('t' as u8, now)),
        packet@.len() == 30,
        packet@[6] == 't' as u8,
        packet@[20] * 0x100_0000 + packet@[21] * 0x1_0000 + packet@[22] * 0x100 + packet@[23]
            == now,
{
    proof {
        law_command_reads_back('t' as u8, now);
    }
    strm_command(0x74, now)
}

/// The packet that carries out a correction: a timed pause, or a skip ahead.
pub fn correction_packet(correction: &Correction) -> (packet: Vec<u8>)
    ensures
        packet@ == frame(
            STRM@,
            match correction.action {
                Action::Pause(ms) => command_payload('p' as u8, ms),
                Action::Skip(ms) => command_payload('a' as u8, ms),
            },
        ),
        packet@.len() == 30,
        ({
            let ms = packet@[20] * 0x100_0000 + packet@[21] * 0x1_0000 + packet@[22] * 0x100
                + packet@[23];
            match correction.action {
                Action::Pause(n) => packet@[6] == 'p' as u8 && ms == n,
                Action::Skip(n) => packet@[6] == 'a' as u8 && ms == n,
            }
        }),
{
    proof {
        match correction.action {
            Action::Pause(n) => law_command_reads_back('p' as u8, n),
            Action::Skip(n) => law_command_reads_back('a' as u8, n),
        }
    }
    match correction.action {
        Action::Pause(ms) => strm_command(0x70, ms),
        Action::Skip(ms) => strm_command(0x61, ms),
    }
}

// ---------------------------------------------------------------------------
// Laws
// ---------------------------------------------------------------------------

/// The length in front of a packet tells a client where it ends.
pub proof fn law_length_prefix_delimits_the_packet(opcode: Seq<u8>, payload: Seq<u8>)
    requires
        opcode.len() == 4,
        payload.len() <= 65531,
    ensures
        frame(opcode, payload).len() == 2 + frame(opcode, payload)[0] * 256 + frame(
            opcode,
            payload,
        )[1],
{
}

/// A number in a packet is read back from where it was written.
pub proof fn law_number_reads_back(before: Seq<u8>, n: u32, after: Seq<u8>)
    ensures
        u32_at(before + be32(n) + after, before.len() as int) == n,
{
    assert((before + be32(n) + after).subrange(
        before.len() as int,
        before.len() as int + 4,
    ) =~= be32(n));
}

/// A control command is 24 bytes long: its letter comes first, and its value is
/// found where the replay gain stands.
pub proof fn law_command_carries_its_value(command: u8, value: u32)
    ensures
        command_payload(command, value).len() == 24,
        command_payload(command, value)[0] == command,
        u32_at(command_payload(command, value), 14) == value,
{
    law_number_reads_back(seq![command] + seq![0u8; 13], value, seq![0u8; 6]);
}

/// A player whose HTTP stream dropped stays registered, and counts as not
/// playing: it has no anchor and so no part in a round, also not once the next
/// stream attaches, until it reports from that stream.
pub proof fn law_dropped_stream_forgets_the_anchor(
    before: SyncModel,
    sid: u64,
    recv_ms: u32,
    after: SyncModel,
    next: SessionNext,
    b_start: u64,
    now: u32,
)
    requires
        before.players.contains_key(sid),
        session_step(before, sid, ClientEvent::Disconnect, recv_ms, after, next),
    ensures
        next == SessionNext::Continue,
        after.players.contains_key(sid),
        after.start_of(sid) is None,
        after.snapshot(sid, now) is None,
        after.players[sid].attached(b_start).epoch(after.scale) is None,
        forall|other: u64|
            other != sid ==> before.players.contains_key(other) == after.players.contains_key(other)
                && before.players[other] == #[trigger] after.players[other],
{
}

/// A text without white space or `&` in it.
pub open spec fn is_plain(s: Seq<char>) -> bool {
    forall|i: int| 0 <= i < s.len() ==> !is_space(#[trigger] s[i]) && s[i] != '&'
}

/// The MAC of a player is plain ASCII text.
proof fn lemma_mac_is_plain(body: Seq<u8>)
    ensures
        is_plain(mac_text(body)),
        is_ascii_chars(mac_text(body)),
{
    reveal_strlit("000000000000");
}

/// A decimal number is plain ASCII text.
proof fn lemma_decimal_is_plain(n: nat)
    ensures
        is_plain(decimal(n)),
        is_ascii_chars(decimal(n)),
    decreases n,
{
    if n >= 10 {
        lemma_decimal_is_plain(n / 10);
    }
}

/// The request line of the request that a player is told to make.
pub open spec fn request_line_text(mac: Seq<char>, sid: u64) -> Seq<char> {
    "GET /stream.pcm?player="@ + mac + "&sid="@ + decimal(sid as nat) + " HTTP/1.0"@
}

/// A request begins with its request line.
proof fn lemma_first_line_of_request(mac: Seq<char>, sid: u64)
    requires
        is_plain(mac),
    ensures
        first_line(request_text(mac, sid)) == request_line_text(mac, sid),
{
    reveal_strlit("GET /stream.pcm?player=");
    reveal_strlit("&sid=");
    reveal_strlit(" HTTP/1.0\r\n\r\n");
    reveal_strlit(" HTTP/1.0");
    lemma_decimal_is_plain(sid as nat);
    let text = request_text(mac, sid);
    let dec = decimal(sid as nat);
    let k = (23 + mac.len() + 5 + dec.len() + 10) as int;
    assert forall|i: int| 0 <= i < k implies text[i] != '\n' by {
        if 23 <= i < 23 + mac.len() {
            assert(text[i] == mac[i - 23]);
        } else if 28 + mac.len() <= i < 28 + mac.len() + dec.len() {
            assert(text[i] == dec[i - 28 - mac.len()]);
        }
    }
    lemma_first_of(text, '\n', k);
    assert(text.take(k - 1) =~= request_line_text(mac, sid));
}

/// The path is the second word of the request line.
proof fn lemma_path_of_request(mac: Seq<char>, sid: u64)
    requires
        is_plain(mac),
    ensures
        second_word(request_line_text(mac, sid)) == Some(
            "/stream.pcm?player="@ + mac + "&sid="@ + decimal(sid as nat),
        ),
{
    reveal_strlit("GET /stream.pcm?player=");
    reveal_strlit("/stream.pcm?player=");
    reveal_strlit("&sid=");
    reveal_strlit(" HTTP/1.0");
    lemma_decimal_is_plain(sid as nat);
    let dec = decimal(sid as nat);
    let line = request_line_text(mac, sid);
    let path = "/stream.pcm?player="@ + mac + "&sid="@ + dec;
    assert(skip_spaces(line) == line);
    lemma_word_len(line, 3);
    let rest = path + " HTTP/1.0"@;
    assert(line.skip(3).drop_first() =~= rest);
    assert(skip_spaces(rest) == rest);
    assert(skip_spaces(line.skip(3)) == rest);
    let k = path.len() as int;
    assert forall|i: int| 0 <= i < k implies !is_space(rest[i]) by {
        if 19 <= i < 19 + mac.len() {
            assert(rest[i] == mac[i - 19]);
        } else if 24 + mac.len() <= i {
            assert(rest[i] == dec[i - 24 - mac.len()]);
        }
    }
    lemma_word_len(rest, k);
    assert(rest.take(k) =~= path);
}

/// The session id is found in the query.
proof fn lemma_query_of_request(mac: Seq<char>, sid: u64)
    requires
        is_plain(mac),
    ensures
        query_sid("player="@ + mac + "&sid="@ + decimal(sid as nat)) == Some(sid),
{
    reveal_strlit("player=");
    reveal_strlit("&sid=");
    lemma_decimal_is_plain(sid as nat);
    law_decimal_reads_back(sid);
    let dec = decimal(sid as nat);
    let query = "player="@ + mac + "&sid="@ + dec;
    let k = (7 + mac.len()) as int;
    assert forall|i: int| 0 <= i < k implies query[i] != '&' by {
        if 7 <= i {
            assert(query[i] == mac[i - 7]);
        }
    }
    lemma_first_of(query, '&', k);
    let pair = query.take(k);
    assert(pair.take(4)[0] == 'p');
    let prefix = seq!['s', 'i', 'd', '='];
    assert(prefix[0] == 's');
    let next = query.skip(k + 1);
    assert(next =~= prefix + dec);
    assert forall|i: int| 0 <= i < next.len() implies next[i] != '&' by {
        if 4 <= i {
            assert(next[i] == dec[i - 4]);
        }
    }
    lemma_first_of(next, '&', next.len() as int);
    assert(next.take(next.len() as int) =~= next);
    assert(next.take(4) =~= prefix);
    assert(next.skip(4) =~= dec);
    assert(query_sid(next) == Some(sid));
}

/// The request that a player is told to make carries its session id: the HTTP
/// side finds it again.
pub proof fn law_request_carries_the_session(mac: Seq<char>, sid: u64)
    requires
        is_plain(mac),
    ensures
        session_id(first_line(request_text(mac, sid))) == Some(sid),
{
    reveal_strlit("/stream.pcm?player=");
    reveal_strlit("player=");
    lemma_first_line_of_request(mac, sid);
    lemma_path_of_request(mac, sid);
    lemma_query_of_request(mac, sid);
    let path = "/stream.pcm?player="@ + mac + "&sid="@ + decimal(sid as nat);
    lemma_first_of(path, '?', 11);
    assert(path.skip(12) =~= "player="@ + mac + "&sid="@ + decimal(sid as nat));
}

/// A player that says `HELO` and makes the request in its `strm` command is
/// recognised as the session that the command was sent to: the bytes of the
/// request are a complete head, decode to its text, and name the session.
pub proof fn law_player_is_recognised_over_http(body: Seq<u8>, sid: u64)
    ensures
        ({
            let request = encode_utf8(request_text(mac_text(body), sid));
            &&& is_complete(request)
            &&& valid_utf8(request)
            &&& session_id(first_line(decode_utf8(request))) == Some(sid)
        }),
{
    let text = request_text(mac_text(body), sid);
    lemma_mac_is_plain(body);
    law_request_carries_the_session(mac_text(body), sid);
    encode_utf8_valid_utf8(text);
    encode_utf8_decode_utf8(text);
    lemma_decimal_is_plain(sid as nat);
    reveal_strlit("GET /stream.pcm?player=");
    reveal_strlit("&sid=");
    reveal_strlit(" HTTP/1.0\r\n\r\n");
    let mac = mac_text(body);
    let dec = decimal(sid as nat);
    assert forall|i: int| 0 <= i < text.len() implies (text[i] as u32) < 128 by {
        if 23 <= i < 23 + mac.len() {
            assert(text[i] == mac[i - 23]);
        } else if 28 + mac.len() <= i < 28 + mac.len() + dec.len() {
            assert(text[i] == dec[i - 28 - mac.len()]);
        }
    }
    assert(is_ascii_chars(text));
    is_ascii_chars_encode_utf8(text);
    let request = encode_utf8(text);
    let n = text.len() as int;
    assert(text[n - 4] == '\r' && text[n - 3] == '\n' && text[n - 2] == '\r' && text[n - 1] == '\n');
    assert(request.skip(n - 4) =~= seq![13u8, 10, 13, 10]);
}

// ---------------------------------------------------------------------------
// What a player makes of a packet
// ---------------------------------------------------------------------------

/// Behind the length of a packet stand its opcode and its payload, as they were
/// given.
pub proof fn law_packet_holds_opcode_and_payload(opcode: Seq<u8>, payload: Seq<u8>)
    requires
        opcode.len() == 4,
    ensures
        frame(opcode, payload).len() == 6 + payload.len(),
        frame(opcode, payload).subrange(2, 6) == opcode,
        frame(opcode, payload).skip(6) == payload,
{
    assert(frame(opcode, payload).subrange(2, 6) =~= opcode);
    assert(frame(opcode, payload).skip(6) =~= payload);
}

/// From a start packet a player reads the stream back: that it is to begin by
/// itself, that it is raw PCM, its bit depth, sample rate and channels, that it
/// is little-endian, at which volume and on which port it is to be had, from
/// the server that sent the packet, and the request to make for it, with the
/// player's MAC and its session id.
#[verifier::spinoff_prover]
pub proof fn law_start_packet_describes_the_stream(
    format: AudioFormat,
    http_port: u16,
    mac: Seq<char>,
    sid: u64,
)
    requires
        format.valid(),
    ensures
        ({
            let packet = frame(STRM@, start_payload(format, http_port, mac, sid));
            let payload = packet.skip(6);
            &&& payload.len() >= 24
            &&& packet[2] == 's' as u8 && packet[3] == 't' as u8 && packet[4] == 'r' as u8
                && packet[5] == 'm' as u8
            &&& payload[0] == 's' as u8 && payload[1] == '1' as u8 && payload[2] == 'p' as u8
            &&& 8 * (payload[3] - '0' as int + 1) == format.bits
            &&& 0 <= payload[4] - '0' as int && payload[4] - ('0' as int) < 15
            &&& SAMPLE_RATES@[payload[4] - '0' as int] == format.sample_rate
            &&& payload[5] - '0' as int == format.channels
            &&& payload[6] == '1' as u8
            &&& payload[7] == 255
            &&& forall|i: int| 8 <= i < 14 && i != 10 ==> payload[i] == 0
            &&& payload[10] == '0' as u8
            &&& payload[14] * 0x100_0000 + payload[15] * 0x1_0000 + payload[16] * 0x100
                + payload[17] == 0x1_0000
            &&& payload[18] * 0x100 + payload[19] == http_port
            &&& payload[20] == 0 && payload[21] == 0 && payload[22] == 0 && payload[23] == 0
            &&& valid_utf8(payload.skip(24))
            &&& decode_utf8(payload.skip(24)) == "GET /stream.pcm?player="@ + mac + "&sid="@
                + decimal(sid as nat) + " HTTP/1.0\r\n\r\n"@
        }),
{
    let payload = start_payload(format, http_port, mac, sid);
    let text = request_text(mac, sid);
    law_packet_holds_opcode_and_payload(STRM@, payload);
    law_codes_read_back(format);
    assert(payload.skip(24) =~= encode_utf8(text));
    encode_utf8_valid_utf8(text);
    encode_utf8_decode_utf8(text);
    let packet = frame(STRM@, payload);
    assert(packet[2] == STRM@[0] && packet[3] == STRM@[1] && packet[4] == STRM@[2] && packet[5]
        == STRM@[3]);
}

/// A control command as a player reads it: 28 bytes behind the length, of which
/// the first four say `strm`, the fifth is the command, and the number from the
/// nineteenth on is its value.
pub proof fn law_command_reads_back(command: u8, value: u32)
    ensures
        ({
            let packet = frame(STRM@, command_payload(command, value));
            &&& packet.len() == 30
            &&& packet[0] == 0 && packet[1] == 28
            &&& packet[2] == 's' as u8 && packet[3] == 't' as u8 && packet[4] == 'r' as u8
                && packet[5] == 'm' as u8
            &&& packet[6] == command
            &&& packet[20] * 0x100_0000 + packet[21] * 0x1_0000 + packet[22] * 0x100 + packet[23]
                == value
            &&& forall|i: int| 7 <= i < 20 || 24 <= i < 30 ==> packet[i] == 0
        }),
{
    let packet = frame(STRM@, command_payload(command, value));
    assert(packet[2] == STRM@[0] && packet[3] == STRM@[1] && packet[4] == STRM@[2] && packet[5]
        == STRM@[3]);
    let b = be32(value);
    assert(packet[20] == b[0] && packet[21] == b[1] && packet[22] == b[2] && packet[23] == b[3]);
}

/// Packets are told apart by their opcode, and status reports by the event code
/// in front: `STMt` is a timing report, `DSCO` the drop of the HTTP stream, and
/// no other packet is of concern.
pub proof fn law_packets_are_told_apart(opcode: Seq<u8>, body: Seq<u8>)
    ensures
        event_of(opcode, body) is Timing <==> opcode == seq![
            'S' as u8,
            'T' as u8,
            'A' as u8,
            'T' as u8,
        ] && body.len() >= 4 && body[0] == 'S' as u8 && body[1] == 'T' as u8 && body[2]
            == 'M' as u8 && body[3] == 't' as u8,
        event_of(opcode, body) is Disconnect <==> opcode == seq![
            'D' as u8,
            'S' as u8,
            'C' as u8,
            'O' as u8,
        ],
{
    assert(STAT@ =~= seq!['S' as u8, 'T' as u8, 'A' as u8, 'T' as u8]);
    assert(DSCO@ =~= seq!['D' as u8, 'S' as u8, 'C' as u8, 'O' as u8]);
    assert(STMT@ =~= seq!['S' as u8, 'T' as u8, 'M' as u8, 't' as u8]);
    assert(STAT@[0] != DSCO@[0]);
    if body.len() >= 4 {
        let code = body.take(4);
        assert(code[0] == body[0] && code[1] == body[1] && code[2] == body[2] && code[3]
            == body[3]);
        if body[0] == 'S' as u8 && body[1] == 'T' as u8 && body[2] == 'M' as u8 && body[3]
            == 't' as u8 {
            assert(code =~= STMT@);
        }
    }
}

/// Four bytes of a packet from `at` on, most significant first, or 0 where the
/// packet ends before.
pub open spec fn counted_at(body: Seq<u8>, at: int) -> int {
    if body.len() < at + 4 {
        0
    } else {
        body[at] * 0x100_0000 + body[at + 1] * 0x1_0000 + body[at + 2] * 0x100 + body[at + 3]
    }
}

/// A timing report reaches the sync engine as the player sent it: its clock
/// stands at byte 25 of the body, its playing time at byte 43 and the timestamp
/// that it echoes at byte 47. It is the report of the session that it came on.
pub proof fn law_timing_report_reaches_the_engine(
    before: SyncModel,
    sid: u64,
    opcode: Seq<u8>,
    body: Seq<u8>,
    recv_ms: u32,
    after: SyncModel,
    next: SessionNext,
    jiffies: u32,
    elapsed: u32,
    server_ts: u32,
)
    requires
        session_step(before, sid, event_of(opcode, body), recv_ms, after, next),
        event_of(opcode, body) is Timing,
        jiffies == counted_at(body, 25),
        elapsed == counted_at(body, 43),
        server_ts == counted_at(body, 47),
    ensures
        next matches SessionNext::Correct(round) && before.answered(
            sid,
            jiffies,
            elapsed,
            server_ts,
            recv_ms,
            after,
            round.now,
            round.corrections@,
        ),
        before.players.contains_key(sid) ==> after.players[sid].last_jiffies == jiffies
            && after.players[sid].last_report_ms == recv_ms,
{
    lemma_u32_at(body, 25);
    lemma_u32_at(body, 43);
    lemma_u32_at(body, 47);
}

/// A number of a packet is what its four bytes count.
proof fn lemma_u32_at(body: Seq<u8>, at: int)
    requires
        at >= 0,
    ensures
        u32_at(body, at) == counted_at(body, at),
{
    if at + 4 <= body.len() {
        let b = body.subrange(at, at + 4);
        assert(b[0] == body[at] && b[1] == body[at + 1] && b[2] == body[at + 2] && b[3] == body[at
            + 3]);
    }
}

/// A packet that is neither a timing report nor the drop of the stream leaves
/// the sync engine alone, and the session goes on.
pub proof fn law_other_packets_change_nothing(
    before: SyncModel,
    sid: u64,
    opcode: Seq<u8>,
    body: Seq<u8>,
    recv_ms: u32,
    after: SyncModel,
    next: SessionNext,
)
    requires
        session_step(before, sid, event_of(opcode, body), recv_ms, after, next),
        event_of(opcode, body) is Other,
    ensures
        after == before,
        next is Continue,
{
}

// ---------------------------------------------------------------------------
// What is made of a player's HELO
// ---------------------------------------------------------------------------

/// The six bytes of the MAC, from the third of the body on, are written as two
/// hexadecimal digits each, with colons in between; so players with different
/// MACs have different texts.
pub proof fn law_mac_reads_back(body: Seq<u8>, k: int)
    requires
        body.len() >= 8,
        0 <= k < 6,
    ensures
        mac_text(body).len() == 17,
        mac_text(body).subrange(3 * k, 3 * k + 2) == hex2(body[2 + k]),
        k < 5 ==> mac_text(body)[3 * k + 2] == ':',
{
    assert(mac_text(body).subrange(3 * k, 3 * k + 2) =~= hex2(body[2 + k]));
}

/// Players with different MACs are told apart.
pub proof fn law_macs_differ(a: Seq<u8>, b: Seq<u8>, k: int)
    requires
        a.len() >= 8,
        b.len() >= 8,
        0 <= k < 6,
        a[2 + k] != b[2 + k],
    ensures
        mac_text(a) != mac_text(b),
{
    law_mac_reads_back(a, k);
    law_mac_reads_back(b, k);
    law_hex_reads_back(a[2 + k]);
    law_hex_reads_back(b[2 + k]);
}

/// Capabilities, each with a comma behind it.
pub open spec fn listed(parts: Seq<Seq<char>>) -> Seq<char>
    decreases parts.len(),
{
    if parts.len() == 0 {
        seq![]
    } else {
        parts[0] + seq![','] + listed(parts.drop_first())
    }
}

/// Whether a text is one capability, and gives no name.
pub open spec fn names_nothing(part: Seq<char>) -> bool {
    &&& forall|i: int| 0 <= i < part.len() ==> part[i] != ','
    &&& part.len() <= 5 || part.take(5) != "Name="@
}

/// A capability that gives no name is passed over.
proof fn lemma_name_passes_over(part: Seq<char>, rest: Seq<char>)
    requires
        names_nothing(part),
    ensures
        name_in(part + seq![','] + rest) == name_in(rest),
{
    let caps = part + seq![','] + rest;
    lemma_first_of(caps, ',', part.len() as int);
    assert(caps.take(part.len() as int) =~= part);
    assert(caps.skip(part.len() as int + 1) =~= rest);
    reveal_strlit("Name=");
    assert("Name="@ =~= seq!['N', 'a', 'm', 'e', '=']);
}

/// Capabilities that give no name are passed over.
proof fn lemma_name_passes_over_all(parts: Seq<Seq<char>>, rest: Seq<char>)
    requires
        forall|i: int| 0 <= i < parts.len() ==> names_nothing(#[trigger] parts[i]),
    ensures
        name_in(listed(parts) + rest) == name_in(rest),
    decreases parts.len(),
{
    if parts.len() == 0 {
        assert(listed(parts) + rest =~= rest);
    } else {
        let others = parts.drop_first();
        assert(names_nothing(parts[0]));
        assert forall|i: int| 0 <= i < others.len() implies names_nothing(#[trigger] others[i]) by {
            assert(others[i] == parts[i + 1]);
        }
        lemma_name_passes_over_all(others, rest);
        lemma_name_passes_over(parts[0], listed(others) + rest);
        assert(listed(parts) + rest =~= parts[0] + seq![','] + (listed(others) + rest));
    }
}

/// So many NULs.
pub open spec fn nul_run(nuls: nat) -> Seq<char> {
    Seq::new(nuls, |i: int| '\0')
}

/// NULs behind a text are taken off it.
proof fn lemma_trim_nuls(text: Seq<char>, nuls: nat)
    requires
        text.len() > 0 ==> text.last() != '\0',
    ensures
        trim_nuls(text + nul_run(nuls)) == text,
    decreases nuls,
{
    let all = text + nul_run(nuls);
    if nuls == 0 {
        assert(all =~= text);
    } else {
        assert(all.last() == '\0');
        assert(all.drop_last() =~= text + nul_run((nuls - 1) as nat));
        lemma_trim_nuls(text, (nuls - 1) as nat);
    }
}

/// A player goes by the name that it gives: the capabilities follow the first 36
/// bytes of its `HELO`, separated by commas and with NULs behind them, and the
/// name is the value of the first `Name=` that has one, wherever it stands.
pub proof fn law_player_goes_by_its_name(
    body: Seq<u8>,
    parts: Seq<Seq<char>>,
    name: Seq<char>,
    rest: Seq<char>,
    nuls: nat,
)
    requires
        ({
            let caps = listed(parts) + "Name="@ + name + rest;
            &&& body.len() > 36
            &&& body.skip(36) == encode_utf8(caps + nul_run(nuls))
            &&& caps.last() != '\0'
        }),
        forall|i: int| 0 <= i < parts.len() ==> names_nothing(#[trigger] parts[i]),
        name.len() > 0,
        forall|i: int| 0 <= i < name.len() ==> name[i] != ',',
        rest.len() > 0 ==> rest[0] == ',',
    ensures
        helo_name(body) == Some(name),
        display_name(body) == name,
{
    reveal_strlit("Name=");
    assert("Name="@ =~= seq!['N', 'a', 'm', 'e', '=']);
    let caps = listed(parts) + "Name="@ + name + rest;
    let text = caps + nul_run(nuls);
    encode_utf8_valid_utf8(text);
    encode_utf8_decode_utf8(text);
    lemma_trim_nuls(caps, nuls);
    let named = "Name="@ + name + rest;
    assert(caps =~= listed(parts) + named);
    lemma_name_passes_over_all(parts, named);
    let k = (5 + name.len()) as int;
    assert forall|i: int| 0 <= i < k implies named[i] != ',' by {
        if i >= 5 {
            assert(named[i] == name[i - 5]);
        }
    }
    lemma_first_of(named, ',', k);
    let part = named.take(k);
    assert(part.take(5) =~= seq!['N', 'a', 'm', 'e', '=']);
    assert(part.skip(5) =~= name);
}

/// A player that gives no name goes by its MAC.
pub proof fn law_nameless_player_goes_by_its_mac(
    body: Seq<u8>,
    parts: Seq<Seq<char>>,
    last: Seq<char>,
    nuls: nat,
)
    requires
        body.len() <= 36 || ({
            let caps = listed(parts) + last;
            &&& body.skip(36) == encode_utf8(caps + nul_run(nuls))
            &&& caps.len() > 0 ==> caps.last() != '\0'
            &&& names_nothing(last)
            &&& forall|i: int| 0 <= i < parts.len() ==> names_nothing(#[trigger] parts[i])
        }),
    ensures
        helo_name(body) is None,
        display_name(body) == mac_text(body),
{
    if body.len() > 36 {
        reveal_strlit("Name=");
        assert("Name="@ =~= seq!['N', 'a', 'm', 'e', '=']);
        let caps = listed(parts) + last;
        let text = caps + nul_run(nuls);
        encode_utf8_valid_utf8(text);
        encode_utf8_decode_utf8(text);
        lemma_trim_nuls(caps, nuls);
        lemma_name_passes_over_all(parts, last);
        lemma_first_of(last, ',', last.len() as int);
        assert(last.take(last.len() as int) =~= last);
    }
}

} // verus!
