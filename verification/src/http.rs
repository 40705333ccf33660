//! The HTTP side: what is served to a player that fetches its audio.
//!
//! When Squeezelite receives our `strm` command it opens an HTTP connection
//! (with `?player=<mac>&sid=<session>` in the URL) and reads raw PCM until end
//! of stream. Each connection gets its own [`BroadcastReceiver`]; the absolute
//! byte position of the live head at attach time is handed to the
//! [`SyncManager`] as this player's anchor.

use crate::buffer::{BroadcastReceiver, RecvResult};
use crate::sync::{SyncManager, SyncModel};
use crate::text::{lemma_first_of, lemma_first_of_range};
use crate::text::{begins_with, chars_of, find_char, first_of, has_prefix, number, parse_number};
use vstd::prelude::*;
use vstd::slice::slice_subrange;
use vstd::string::*;
use vstd::utf8::*;

verus! {

/// A request head longer than this is cut off.
pub const MAX_REQUEST_BYTES: usize = 8192;

/// Whether `s` ends with `suffix`.
pub open spec fn ends_with(s: Seq<u8>, suffix: Seq<u8>) -> bool {
    suffix.len() <= s.len() && s.skip(s.len() - suffix.len()) == suffix
}

/// Whether a request head has been read in full: an empty line ends it, or it
/// has grown too long.
pub open spec fn is_complete(head: Seq<u8>) -> bool {
    ||| ends_with(head, seq![13u8, 10, 13, 10])
    ||| ends_with(head, seq![10u8, 10])
    ||| head.len() > MAX_REQUEST_BYTES
}

/// Whether a character is white space, as Unicode has it.
pub open spec fn is_space(c: char) -> bool {
    let n = c as u32;
    ||| 0x09 <= n <= 0x0d
    ||| n == 0x20
    ||| n == 0x85
    ||| n == 0xa0
    ||| n == 0x1680
    ||| 0x2000 <= n <= 0x200a
    ||| n == 0x2028
    ||| n == 0x2029
    ||| n == 0x202f
    ||| n == 0x205f
    ||| n == 0x3000
}

/// `s` without the white space in front.
pub open spec fn skip_spaces(s: Seq<char>) -> Seq<char>
    decreases s.len(),
{
    if s.len() > 0 && is_space(s[0]) {
        skip_spaces(s.drop_first())
    } else {
        s
    }
}

/// How many characters stand in front of the first white space.
pub open spec fn word_len(s: Seq<char>) -> int
    decreases s.len(),
{
    if s.len() == 0 || is_space(s[0]) {
        0
    } else {
        1 + word_len(s.drop_first())
    }
}

/// A word ends at the first white space.
pub proof fn lemma_word_len(s: Seq<char>, k: int)
    requires
        0 <= k <= s.len(),
        forall|i: int| 0 <= i < k ==> !is_space(s[i]),
        k < s.len() ==> is_space(s[k]),
    ensures
        word_len(s) == k,
    decreases s.len(),
{
    if k > 0 {
        assert(s.drop_first().len() == s.len() - 1);
        lemma_word_len(s.drop_first(), k - 1);
    }
}

/// The second of the words that white space separates.
pub open spec fn second_word(s: Seq<char>) -> Option<Seq<char>> {
    let first = skip_spaces(s);
    let rest = skip_spaces(first.skip(word_len(first)));
    if rest.len() == 0 {
        None
    } else {
        Some(rest.take(word_len(rest)))
    }
}

/// The value of the first `sid` in a query that is a number.
pub open spec fn query_sid(query: Seq<char>) -> Option<u64>
    decreases query.len(),
{
    proof {
        lemma_first_of_range(query, '&');
    }
    let at = first_of(query, '&');
    let pair = query.take(at);
    let sid = if begins_with(pair, seq!['s', 'i', 'd', '=']) {
        number(pair.skip(4))
    } else {
        None
    };
    if sid is Some || at == query.len() {
        sid
    } else {
        query_sid(query.skip(at + 1))
    }
}

/// The session id that a request line carries.
pub open spec fn session_id(line: Seq<char>) -> Option<u64> {
    match second_word(line) {
        Some(path) => {
            let at = first_of(path, '?');
            if at < path.len() {
                query_sid(path.skip(at + 1))
            } else {
                None
            }
        },
        None => None,
    }
}

/// The first line of a text, without its line ending (`\n` or `\r\n`).
pub open spec fn first_line(text: Seq<char>) -> Seq<char> {
    let at = first_of(text, '\n');
    if at == text.len() {
        text
    } else if at > 0 && text[at - 1] == '\r' {
        text.take(at - 1)
    } else {
        text.take(at)
    }
}

/// Whether a request head has been read in full.
pub fn request_complete(head: &[u8]) -> (done: bool)
    ensures
        done == is_complete(head@),
{
    let n: usize = head.len();
    let crlf: bool = n >= 4 && head[n - 4] == 13 && head[n - 3] == 10 && head[n - 2] == 13 && head[n
        - 1] == 10;
    let lf: bool = n >= 2 && head[n - 2] == 10 && head[n - 1] == 10;
    proof {
        if n >= 4 {
            let end = head@.skip(n - 4);
            assert(end[0] == head@[n - 4] && end[1] == head@[n - 3] && end[2] == head@[n - 2]
                && end[3] == head@[n - 1]);
            if crlf {
                assert(end =~= seq![13u8, 10, 13, 10]);
            }
        }
        if n >= 2 {
            let end = head@.skip(n - 2);
            assert(end[0] == head@[n - 2] && end[1] == head@[n - 1]);
            if lf {
                assert(end =~= seq![10u8, 10]);
            }
        }
    }
    crlf || lf || n > MAX_REQUEST_BYTES
}

/// What [`String::from_utf8_lossy`] makes of bytes.
pub uninterp spec fn lossy_text(bytes: Seq<u8>) -> Seq<char>;

/// Calls `String::from_utf8_lossy`. The text is a function of the bytes alone;
/// where they are valid UTF-8 it is what they encode. How sequences that are
/// not valid are replaced is not stated.
#[verifier::external_body]
fn utf8_lossy(bytes: &[u8]) -> (text: String)
    ensures
        text@ == lossy_text(bytes@),
        valid_utf8(bytes@) ==> text@ == decode_utf8(bytes@),
{
    String::from_utf8_lossy(bytes).into_owned()
}

/// The first line of a text, without its line ending.
pub fn first_line_of(text: &str) -> (line: String)
    ensures
        line@ == first_line(text@),
{
    let chars: Vec<char> = chars_of(text);
    let at: usize = find_char(chars.as_slice(), '\n');
    if at == chars.len() {
        text.to_owned()
    } else if at > 0 && chars[at - 1] == '\r' {
        let line: &str = text.substring_char(0, at - 1);
        line.to_owned()
    } else {
        let line: &str = text.substring_char(0, at);
        line.to_owned()
    }
}

/// The request line (first line) of an HTTP request head.
pub fn request_line(head: &[u8]) -> (line: String)
    ensures
        line@ == first_line(lossy_text(head@)),
        valid_utf8(head@) ==> line@ == first_line(decode_utf8(head@)),
{
    let text: String = utf8_lossy(head);
    first_line_of(text.as_str())
}

/// Whether a character is white space, as Unicode has it.
fn space(c: char) -> (yes: bool)
    ensures
        yes == is_space(c),
{
    let n: u32 = c as u32;
    (0x09 <= n && n <= 0x0d) || n == 0x20 || n == 0x85 || n == 0xa0 || n == 0x1680 || (0x2000 <= n
        && n <= 0x200a) || n == 0x2028 || n == 0x2029 || n == 0x202f || n == 0x205f || n == 0x3000
}

/// `s` without the white space in front.
fn after_spaces(s: &[char]) -> (rest: &[char])
    ensures
        rest@ == skip_spaces(s@),
{
    let mut i: usize = 0;
    assert(s@.skip(0) =~= s@);
    while i < s.len() && space(s[i])
        invariant
            i <= s@.len(),
            skip_spaces(s@) == skip_spaces(s@.skip(i as int)),
        decreases s@.len() - i,
    {
        assert(s@.skip(i as int).drop_first() =~= s@.skip(i + 1));
        i += 1;
    }
    assert(s@.skip(i as int) =~= s@.subrange(i as int, s@.len() as int));
    slice_subrange(s, i, s.len())
}

/// How many characters stand in front of the first white space.
fn leading_word(s: &[char]) -> (len: usize)
    ensures
        len == word_len(s@),
        len <= s@.len(),
{
    let mut i: usize = 0;
    assert(s@.skip(0) =~= s@);
    while i < s.len() && !space(s[i])
        invariant
            i <= s@.len(),
            word_len(s@) == i + word_len(s@.skip(i as int)),
        decreases s@.len() - i,
    {
        assert(s@.skip(i as int).drop_first() =~= s@.skip(i + 1));
        i += 1;
    }
    i
}

/// The value of the first `sid` in a query that is a number.
fn find_sid(query: &[char]) -> (sid: Option<u64>)
    ensures
        sid == query_sid(query@),
{
    let prefix: Vec<char> = vec!['s', 'i', 'd', '='];
    assert(prefix@ =~= seq!['s', 'i', 'd', '=']);
    let mut start: usize = 0;
    assert(query@.subrange(0, query@.len() as int) =~= query@);
    loop
        invariant
            start <= query@.len(),
            prefix@ == seq!['s', 'i', 'd', '='],
            query_sid(query@) == query_sid(query@.subrange(start as int, query@.len() as int)),
        decreases query@.len() - start,
    {
        let rest: &[char] = slice_subrange(query, start, query.len());
        let at: usize = find_char(rest, '&');
        let pair: &[char] = slice_subrange(rest, 0, at);
        assert(pair@ =~= rest@.take(at as int));
        if has_prefix(pair, prefix.as_slice()) {
            let value: &[char] = slice_subrange(pair, 4, pair.len());
            assert(value@ =~= pair@.skip(4));
            let sid: Option<u64> = parse_number(value);
            if sid.is_some() {
                return sid;
            }
        }
        if at == rest.len() {
            return None;
        }
        assert(rest@.skip(at + 1) =~= query@.subrange(start + at + 1, query@.len() as int));
        start = start + at + 1;
    }
}

/// Extract the session id from a request line like
/// `GET /stream.pcm?player=<mac>&sid=<sid> HTTP/1.0`.
pub fn parse_session_id(line: &str) -> (sid: Option<u64>)
    ensures
        sid == session_id(line@),
{
    let chars: Vec<char> = chars_of(line);
    let first: &[char] = after_spaces(chars.as_slice());
    let method: usize = leading_word(first);
    let tail: &[char] = slice_subrange(first, method, first.len());
    assert(tail@ =~= first@.skip(method as int));
    let rest: &[char] = after_spaces(tail);
    if rest.len() == 0 {
        return None;
    }
    let target: usize = leading_word(rest);
    let path: &[char] = slice_subrange(rest, 0, target);
    assert(path@ =~= rest@.take(target as int));
    let at: usize = find_char(path, '?');
    if at == path.len() {
        return None;
    }
    let query: &[char] = slice_subrange(path, at + 1, path.len());
    assert(query@ =~= path@.skip(at + 1));
    find_sid(query)
}

/// The head of every answer. Content-Type is advisory only: in raw-PCM mode
/// Squeezelite takes the format from the `strm` command, not from these
/// headers.
pub fn response_head() -> (head: &'static str)
    ensures
        head@ == "HTTP/1.0 200 OK\r\nContent-Type: application/octet-stream\r\nCache-Control: no-cache\r\nConnection: close\r\n\r\n"@,
{
    "HTTP/1.0 200 OK\r\nContent-Type: application/octet-stream\r\nCache-Control: no-cache\r\nConnection: close\r\n\r\n"
}

/// Anchor a player at the exact byte its stream begins. A request without a
/// session id is served all the same, without an anchor.
pub fn attach(sid: Option<u64>, rx: &BroadcastReceiver, manager: &mut SyncManager)
    requires
        old(manager)@.wf(),
    ensures
        final(manager)@.wf(),
        final(manager)@ == match sid {
            Some(sid) if old(manager)@.players.contains_key(sid) => old(manager)@.with(
                sid,
                old(manager)@.players[sid].attached(rx.at() as u64),
            ),
            _ => old(manager)@,
        },
        sid matches Some(id) ==> (old(manager)@.players.contains_key(id) ==>
            final(manager)@.start_of(id) == Some(rx.at() as u64)),
{
    if let Some(sid) = sid {
        manager.set_http_start(sid, rx.position());
    }
}

/// What to do for a client next.
pub enum Delivery {
    /// Send these bytes.
    Write(Vec<u8>),
    /// The stream is over: drop the connection.
    Finish,
}

/// The sync engine after a client's reader lost `skipped` bytes.
pub open spec fn after_skip(model: SyncModel, sid: Option<u64>, skipped: u64) -> SyncModel {
    match sid {
        Some(sid) if skipped > 0 && model.players.contains_key(sid) => model.with(
            sid,
            model.players[sid].shifted(skipped),
        ),
        _ => model,
    }
}

/// Pass on what a client's reader received. Where retention dropped stream the
/// reader never got, the player's anchor is shifted so the sync model tracks
/// what it actually plays.
pub fn deliver(sid: Option<u64>, received: RecvResult, manager: &mut SyncManager) -> (next: Delivery)
    requires
        old(manager)@.wf(),
        received matches RecvResult::Data { skipped_bytes, .. } ==> (sid matches Some(id) ==> (
        old(manager)@.start_of(id) matches Some(b) ==> b + skipped_bytes <= u64::MAX)),
    ensures
        final(manager)@.wf(),
        match received {
            RecvResult::Data { chunk, skipped_bytes } => {
                &&& next == Delivery::Write(chunk)
                &&& next matches Delivery::Write(bytes) && bytes@ == chunk@
                &&& final(manager)@ == after_skip(old(manager)@, sid, skipped_bytes)
            },
            RecvResult::Closed => next == Delivery::Finish && final(manager)@ == old(manager)@,
        },
{
    match received {
        RecvResult::Data { chunk, skipped_bytes } => {
            if skipped_bytes > 0 {
                if let Some(sid) = sid {
                    manager.advance_http_start(sid, skipped_bytes);
                }
            }
            Delivery::Write(chunk)
        },
        RecvResult::Closed => Delivery::Finish,
    }
}

/// A player's stream origin stays truthful: however much its reader loses, the
/// origin plus the bytes it was sent is the position its reader stands at. So
/// what the player has played of its stream is counted from the right byte.
pub proof fn law_origin_plus_sent_is_position(
    model: SyncModel,
    sid: u64,
    sent: int,
    at: int,
    skipped: u64,
    chunk: Seq<u8>,
)
    requires
        model.start_of(sid) matches Some(b) && b + sent == at && b + skipped <= u64::MAX,
    ensures
        after_skip(model, Some(sid), skipped).start_of(sid) matches Some(b) && b + (sent
            + chunk.len()) == at + skipped + chunk.len(),
{
}

/// A request head is complete with the empty line at its end, in either line
/// ending, and before that only where it is longer than 8192 bytes.
pub proof fn law_empty_line_completes_a_head(head: Seq<u8>)
    ensures
        is_complete(head + seq![13u8, 10, 13, 10]),
        is_complete(head + seq![10u8, 10]),
        head.len() > 8192 ==> is_complete(head),
        ({
            let n = head.len() as int;
            is_complete(head) && n <= 8192 ==> {
                &&& n >= 2 && head[n - 1] == 10
                &&& head[n - 2] == 10 || (n >= 4 && head[n - 2] == 13 && head[n - 3] == 10 && head[n
                    - 4] == 13)
            }
        }),
{
    let n = head.len() as int;
    let a = head + seq![13u8, 10, 13, 10];
    let b = head + seq![10u8, 10];
    assert(a.skip(a.len() - 4) =~= seq![13u8, 10, 13, 10]);
    assert(b.skip(b.len() - 2) =~= seq![10u8, 10]);
    if ends_with(head, seq![13u8, 10, 13, 10]) {
        let end = head.skip(n - 4);
        assert(end[0] == head[n - 4] && end[1] == head[n - 3] && end[2] == head[n - 2] && end[3]
            == head[n - 1]);
    }
    if ends_with(head, seq![10u8, 10]) {
        let end = head.skip(n - 2);
        assert(end[0] == head[n - 2] && end[1] == head[n - 1]);
    }
}

/// The first line of a text is what stands before its first line ending, which
/// is `\n` or `\r\n`; a text without one is a line.
pub proof fn law_first_line_ends_at_the_line_ending(line: Seq<char>, rest: Seq<char>)
    requires
        forall|i: int| 0 <= i < line.len() ==> line[i] != '\n',
    ensures
        first_line(line + seq!['\r', '\n'] + rest) == line,
        line.len() == 0 || line.last() != '\r' ==> first_line(line + seq!['\n'] + rest) == line,
        first_line(line) == line,
{
    let n = line.len() as int;
    let a = line + seq!['\r', '\n'] + rest;
    let b = line + seq!['\n'] + rest;
    assert forall|i: int| 0 <= i < n + 1 implies a[i] != '\n' by {
        if i < n {
            assert(a[i] == line[i]);
        }
    }
    assert forall|i: int| 0 <= i < n implies b[i] != '\n' by {
        assert(b[i] == line[i]);
    }
    lemma_first_of(a, '\n', n + 1);
    lemma_first_of(b, '\n', n);
    lemma_first_of(line, '\n', n);
    assert(a.take(n) =~= line);
    assert(b.take(n) =~= line);
}

/// What separates the words of a request line: blanks, tabs and line endings
/// do, and no other character of ASCII that can be seen.
pub proof fn law_visible_characters_are_no_spaces(c: char)
    ensures
        is_space(' ') && is_space('\t') && is_space('\r') && is_space('\n'),
        0x21 <= c as u32 <= 0x7e ==> !is_space(c),
{
}

/// The session id of a request is looked for in the query of its path: the path
/// is the second word of the request line, and its query is what follows the
/// first `?`. A path without one carries no session id.
pub proof fn law_session_is_read_from_the_query(
    method: Seq<char>,
    path: Seq<char>,
    query: Seq<char>,
    tail: Seq<char>,
)
    requires
        method.len() > 0,
        forall|i: int| 0 <= i < method.len() ==> !is_space(method[i]),
        path.len() > 0,
        forall|i: int| 0 <= i < path.len() ==> !is_space(path[i]) && path[i] != '?',
        forall|i: int| 0 <= i < query.len() ==> !is_space(query[i]),
        tail.len() > 0 ==> tail[0] == ' ',
    ensures
        session_id(method + seq![' '] + path + seq!['?'] + query + tail) == query_sid(query),
        session_id(method + seq![' '] + path + tail) is None,
{
    lemma_second_word(method, path + seq!['?'] + query, tail);
    lemma_second_word(method, path, tail);
    let target = path + seq!['?'] + query;
    assert(method + seq![' '] + target + tail =~= method + seq![' '] + path + seq!['?'] + query
        + tail);
    lemma_first_of(target, '?', path.len() as int);
    lemma_first_of(path, '?', path.len() as int);
    assert(target.skip(path.len() as int + 1) =~= query);
}

/// The second word of a line.
proof fn lemma_second_word(method: Seq<char>, target: Seq<char>, tail: Seq<char>)
    requires
        method.len() > 0,
        forall|i: int| 0 <= i < method.len() ==> !is_space(method[i]),
        target.len() > 0,
        forall|i: int| 0 <= i < target.len() ==> !is_space(target[i]),
        tail.len() > 0 ==> tail[0] == ' ',
    ensures
        second_word(method + seq![' '] + target + tail) == Some(target),
{
    let line = method + seq![' '] + target + tail;
    let n = method.len() as int;
    assert(line[0] == method[0]);
    assert(skip_spaces(line) == line);
    assert forall|i: int| 0 <= i < n implies !is_space(line[i]) by {
        assert(line[i] == method[i]);
    }
    assert(line[n] == ' ');
    lemma_word_len(line, n);
    let rest = target + tail;
    assert(line.skip(n).drop_first() =~= rest);
    assert(line.skip(n)[0] == ' ');
    assert(rest[0] == target[0]);
    assert(skip_spaces(rest) == rest);
    assert(skip_spaces(line.skip(n)) == rest);
    let k = target.len() as int;
    assert forall|i: int| 0 <= i < k implies !is_space(rest[i]) by {
        assert(rest[i] == target[i]);
    }
    if tail.len() > 0 {
        assert(rest[k] == tail[0]);
    }
    lemma_word_len(rest, k);
    assert(rest.take(k) =~= target);
}

/// Pairs of a query, each with a `&` behind it.
pub open spec fn pairs_text(pairs: Seq<Seq<char>>) -> Seq<char>
    decreases pairs.len(),
{
    if pairs.len() == 0 {
        seq![]
    } else {
        pairs[0] + seq!['&'] + pairs_text(pairs.drop_first())
    }
}

/// Whether a text is one pair of a query, and gives no session id.
pub open spec fn gives_no_sid(pair: Seq<char>) -> bool {
    &&& forall|i: int| 0 <= i < pair.len() ==> pair[i] != '&'
    &&& pair.len() < 4 || pair.take(4) != "sid="@ || number(pair.skip(4)) is None
}

/// Pairs that give no session id are passed over.
proof fn lemma_query_passes_over(pairs: Seq<Seq<char>>, rest: Seq<char>)
    requires
        forall|i: int| 0 <= i < pairs.len() ==> gives_no_sid(#[trigger] pairs[i]),
    ensures
        query_sid(pairs_text(pairs) + rest) == query_sid(rest),
    decreases pairs.len(),
{
    if pairs.len() == 0 {
        assert(pairs_text(pairs) + rest =~= rest);
    } else {
        let others = pairs.drop_first();
        let pair = pairs[0];
        let after = pairs_text(others) + rest;
        let query = pair + seq!['&'] + after;
        assert(gives_no_sid(pair));
        assert forall|i: int| 0 <= i < others.len() implies gives_no_sid(#[trigger] others[i]) by {
            assert(others[i] == pairs[i + 1]);
        }
        lemma_query_passes_over(others, rest);
        assert(pairs_text(pairs) + rest =~= query);
        lemma_first_of(query, '&', pair.len() as int);
        assert(query.take(pair.len() as int) =~= pair);
        assert(query.skip(pair.len() as int + 1) =~= after);
        reveal_strlit("sid=");
        assert("sid="@ =~= seq!['s', 'i', 'd', '=']);
    }
}

/// The session id of a query is the value of its first `sid` that is a number,
/// wherever it stands; without one there is none.
pub proof fn law_session_is_found_in_the_query(
    pairs: Seq<Seq<char>>,
    value: Seq<char>,
    sid: u64,
    rest: Seq<char>,
    last: Seq<char>,
)
    requires
        forall|i: int| 0 <= i < pairs.len() ==> gives_no_sid(#[trigger] pairs[i]),
        number(value) == Some(sid),
        forall|i: int| 0 <= i < value.len() ==> value[i] != '&',
        rest.len() > 0 ==> rest[0] == '&',
        gives_no_sid(last),
    ensures
        query_sid(pairs_text(pairs) + "sid="@ + value + rest) == Some(sid),
        query_sid(pairs_text(pairs) + last) is None,
{
    reveal_strlit("sid=");
    assert("sid="@ =~= seq!['s', 'i', 'd', '=']);
    let named = "sid="@ + value + rest;
    assert(pairs_text(pairs) + "sid="@ + value + rest =~= pairs_text(pairs) + named);
    lemma_query_passes_over(pairs, named);
    lemma_query_passes_over(pairs, last);
    let k = (4 + value.len()) as int;
    assert forall|i: int| 0 <= i < k implies named[i] != '&' by {
        if i >= 4 {
            assert(named[i] == value[i - 4]);
        }
    }
    lemma_first_of(named, '&', k);
    let pair = named.take(k);
    assert(pair.take(4) =~= seq!['s', 'i', 'd', '=']);
    assert(pair.skip(4) =~= value);
    lemma_first_of(last, '&', last.len() as int);
    assert(last.take(last.len() as int) =~= last);
}

/// A client that loses bytes moves the origin of its own session, and of no
/// other; one that loses none, or has no session, moves none.
pub proof fn law_only_losses_move_an_origin(
    model: SyncModel,
    sid: Option<u64>,
    skipped: u64,
    other: u64,
)
    requires
        model.start_of(other) matches Some(b) ==> b + skipped <= u64::MAX,
    ensures
        after_skip(model, sid, skipped).start_of(other) == match model.start_of(other) {
            Some(b) if sid == Some(other) => Some((b + skipped) as u64),
            start => start,
        },
        skipped == 0 || sid is None ==> after_skip(model, sid, skipped) == model,
{
}

} // verus!
