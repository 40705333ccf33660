//! SlimProto UDP service discovery: what is answered to a datagram.
//!
//! Squeezelite (and Squeezebox hardware), when started without an explicit
//! `-s <server>`, broadcasts a UDP discovery datagram to port 3483 and connects
//! SlimProto to whoever answers.
//!
//! Two request forms are handled:
//!   * TLV "get" (`'e'` …) - the modern form squeezelite uses. The body is a
//!     list of 4-byte tag + 1-byte length + value entries (length 0 in a
//!     request). We answer with `'E'` and the same tags filled in.
//!   * Legacy (`'d'`) - old hardware discovery; answered with a bare `'D'`.

use crate::bytes::append;
use crate::text::{decimal, decimal_text};
use vstd::prelude::*;
use vstd::slice::slice_subrange;
use vstd::string::*;
use vstd::utf8::*;

verus! {

/// `NAME`: what the server is called.
pub const NAME: [u8; 4] = [0x4e, 0x41, 0x4d, 0x45];

/// `JSON`: the port that the server's HTTP side is on.
pub const JSON: [u8; 4] = [0x4a, 0x53, 0x4f, 0x4e];

/// `VERS`: the version of the server.
pub const VERS: [u8; 4] = [0x56, 0x45, 0x52, 0x53];

/// `JVID`: an identifier that we do not have.
pub const JVID: [u8; 4] = [0x4a, 0x56, 0x49, 0x44];

/// `UUID`: an identifier that we do not have.
pub const UUID: [u8; 4] = [0x55, 0x55, 0x49, 0x44];

/// The tags in a TLV body (each entry: tag, one byte of length, value). What is
/// too short to be an entry is left out.
pub open spec fn tags_in(body: Seq<u8>) -> Seq<Seq<u8>>
    decreases body.len(),
{
    if body.len() < 5 {
        seq![]
    } else if 5 + body[4] >= body.len() {
        seq![body.take(4)]
    } else {
        seq![body.take(4)] + tags_in(body.skip(5 + body[4]))
    }
}

/// The value of the first entry of a TLV body that has a tag.
pub open spec fn value_in(body: Seq<u8>, tag: Seq<u8>) -> Option<Seq<u8>>
    decreases body.len(),
{
    if body.len() < 5 || 5 + body[4] > body.len() {
        None
    } else if body.take(4) == tag {
        Some(body.subrange(5, 5 + body[4]))
    } else {
        value_in(body.skip(5 + body[4]), tag)
    }
}

/// What the server tells of itself.
pub struct Card {
    /// What it is called.
    pub name: Seq<u8>,
    /// Its version.
    pub version: Seq<u8>,
    /// The port that its HTTP side is on.
    pub json_port: Seq<u8>,
}

impl Card {
    /// What is answered to a tag that we recognise.
    pub open spec fn value(self, tag: Seq<u8>) -> Option<Seq<u8>> {
        if tag == NAME@ {
            Some(self.name)
        } else if tag == JSON@ {
            Some(self.json_port)
        } else if tag == VERS@ {
            Some(self.version)
        } else if tag == JVID@ || tag == UUID@ {
            Some(seq![])
        } else {
            None
        }
    }

    /// The entry for a tag. A value is cut off after 255 bytes.
    pub open spec fn entry(self, tag: Seq<u8>) -> Seq<u8> {
        let value = cut(self.value(tag).unwrap());
        tag + seq![value.len() as u8] + value
    }

    /// The entries for tags, one after the other.
    pub open spec fn entries(self, tags: Seq<Seq<u8>>) -> Seq<u8>
        decreases tags.len(),
    {
        if tags.len() == 0 {
            seq![]
        } else {
            self.entries(tags.drop_last()) + self.entry(tags.last())
        }
    }

    /// The answer to a TLV request for tags.
    pub open spec fn response(self, tags: Seq<Seq<u8>>) -> Seq<u8> {
        seq!['E' as u8] + self.entries(answered(tags))
    }
}

/// No more than 255 bytes.
pub open spec fn cut(value: Seq<u8>) -> Seq<u8> {
    if value.len() > 255 {
        value.take(255)
    } else {
        value
    }
}

/// Whether a tag is one that we recognise.
pub open spec fn known(tag: Seq<u8>) -> bool {
    tag == NAME@ || tag == JSON@ || tag == VERS@ || tag == JVID@ || tag == UUID@
}

/// The tags that we recognise, each where it occurs first.
pub open spec fn distinct_known(tags: Seq<Seq<u8>>) -> Seq<Seq<u8>>
    decreases tags.len(),
{
    if tags.len() == 0 {
        seq![]
    } else {
        let before = distinct_known(tags.drop_last());
        if known(tags.last()) && !before.contains(tags.last()) {
            before.push(tags.last())
        } else {
            before
        }
    }
}

/// The tags that are answered where `tags` were requested. `NAME` and `JSON`
/// are always advertised, even if the client didn't list them: squeezelite keys
/// on these to identify and reach the server.
pub open spec fn answered(tags: Seq<Seq<u8>>) -> Seq<Seq<u8>> {
    distinct_known(tags.push(NAME@).push(JSON@))
}

/// The reply to a datagram, where there is one.
pub open spec fn reply_to(request: Seq<u8>, card: Card) -> Option<Seq<u8>> {
    if request.len() == 0 {
        None
    } else if request[0] == 'e' as u8 {
        Some(card.response(tags_in(request.skip(1))))
    } else if request[0] == 'd' as u8 {
        Some(seq!['D' as u8])
    } else {
        None
    }
}

/// The tags as sequences of bytes.
pub open spec fn tag_views(tags: Seq<[u8; 4]>) -> Seq<Seq<u8>> {
    tags.map(|i: int, tag: [u8; 4]| tag@)
}

/// Parse the tag names from a TLV "get" body (each entry: tag[4] len[1]
/// value[len]).
pub fn parse_requested_tags(body: &[u8]) -> (tags: Vec<[u8; 4]>)
    ensures
        tag_views(tags@) == tags_in(body@),
{
    let mut tags: Vec<[u8; 4]> = Vec::new();
    let mut i: usize = 0;
    let n: usize = body.len();
    assert(body@.subrange(0, n as int) =~= body@);
    assert(tag_views(tags@) + tags_in(body@) =~= tags_in(body@));
    while n >= 5 && i <= n - 5
        invariant
            n == body@.len(),
            i <= n,
            tag_views(tags@) + tags_in(body@.subrange(i as int, n as int)) == tags_in(body@),
        decreases n - i,
    {
        let tag: [u8; 4] = [body[i], body[i + 1], body[i + 2], body[i + 3]];
        let len: usize = body[i + 4] as usize;
        let ghost rest = body@.subrange(i as int, n as int);
        let ghost before = tag_views(tags@);
        tags.push(tag);
        proof {
            assert(tag@ =~= rest.take(4));
            assert(tag_views(tags@) =~= before.push(tag@));
            assert(rest[4] == len);
            if i + 5 + len < n {
                assert(rest.skip(5 + len) =~= body@.subrange(i + 5 + len, n as int));
                assert(before + (seq![tag@] + tags_in(rest.skip(5 + len))) =~= tag_views(tags@)
                    + tags_in(rest.skip(5 + len)));
            } else {
                assert(before + seq![tag@] =~= tag_views(tags@));
                if i + 5 + len == n {
                    assert(body@.subrange(n as int, n as int) =~= seq![]);
                    assert(tag_views(tags@) + tags_in(seq![]) =~= tag_views(tags@));
                }
            }
        }
        if len > n - i - 5 {
            return tags;
        }
        i = i + 5 + len;
    }
    assert(tag_views(tags@) + seq![] =~= tag_views(tags@));
    tags
}

/// Whether two tags are the same.
fn same_tag(a: &[u8; 4], b: &[u8; 4]) -> (same: bool)
    ensures
        same == (a@ == b@),
{
    let same: bool = a[0] == b[0] && a[1] == b[1] && a[2] == b[2] && a[3] == b[3];
    if same {
        assert(a@ =~= b@);
    }
    same
}

/// Whether a tag is among `tags`.
fn has_tag(tags: &Vec<[u8; 4]>, tag: &[u8; 4]) -> (yes: bool)
    ensures
        yes == tag_views(tags@).contains(tag@),
{
    for i in 0..tags.len()
        invariant
            forall|j: int| 0 <= j < i ==> tag_views(tags@)[j] != tag@,
    {
        if same_tag(&tags[i], tag) {
            assert(tag_views(tags@)[i as int] == tag@);
            return true;
        }
    }
    false
}

/// Append the entry for a tag, unless it has been answered already.
fn answer_tag(out: &mut Vec<u8>, done: &mut Vec<[u8; 4]>, tag: &[u8; 4], value: &[u8], card: Ghost<
    Card,
>)
    requires
        card@.value(tag@) == Some(value@),
        old(out)@ == seq!['E' as u8] + card@.entries(tag_views(old(done)@)),
    ensures
        final(out)@ == seq!['E' as u8] + card@.entries(tag_views(final(done)@)),
        tag_views(final(done)@) == (if tag_views(old(done)@).contains(tag@) {
            tag_views(old(done)@)
        } else {
            tag_views(old(done)@).push(tag@)
        }),
{
    if has_tag(done, tag) {
        return;
    }
    let len: usize = if value.len() > 255 {
        255
    } else {
        value.len()
    };
    let short: &[u8] = slice_subrange(value, 0, len);
    assert(short@ =~= cut(value@));
    append(out, tag);
    out.push(len as u8);
    append(out, short);
    done.push(*tag);
    proof {
        let before = tag_views(old(done)@);
        assert(tag_views(done@) =~= before.push(tag@));
        assert(before.push(tag@).drop_last() =~= before);
        assert(out@ =~= seq!['E' as u8] + (card@.entries(before) + card@.entry(tag@)));
    }
}

/// The entries of a response, as strings.
pub open spec fn card_of(name: Seq<char>, version: Seq<char>, json_port: Seq<char>) -> Card {
    Card {
        name: encode_utf8(name),
        version: encode_utf8(version),
        json_port: encode_utf8(json_port),
    }
}

/// Build an `'E'` TLV response, answering each requested tag we recognise.
pub fn build_tlv_response(tags: &[[u8; 4]], name: &str, version: &str, json_port: &str) -> (out:
    Vec<u8>)
    ensures
        out@ == card_of(name@, version@, json_port@).response(tag_views(tags@)),
{
    let ghost card = card_of(name@, version@, json_port@);
    let ghost views = tag_views(tags@);
    let mut out: Vec<u8> = vec![0x45];
    let mut done: Vec<[u8; 4]> = Vec::new();
    proof {
        assert(NAME@[0] != JSON@[0] && NAME@[0] != VERS@[0] && NAME@[0] != JVID@[0] && NAME@[0]
            != UUID@[0] && JSON@[0] != VERS@[0] && JSON@[1] != JVID@[1] && JSON@[0] != UUID@[0]
            && VERS@[0] != JVID@[0] && VERS@[0] != UUID@[0]);
        assert(tag_views(done@) =~= distinct_known(views.take(0)));
        assert(out@ =~= seq!['E' as u8] + card.entries(tag_views(done@)));
    }
    for i in 0..tags.len()
        invariant
            card == card_of(name@, version@, json_port@),
            views == tag_views(tags@),
            tag_views(done@) == distinct_known(views.take(i as int)),
            out@ == seq!['E' as u8] + card.entries(tag_views(done@)),
            NAME@ != JSON@ && NAME@ != VERS@ && NAME@ != JVID@ && NAME@ != UUID@ && JSON@ != VERS@
                && JSON@ != JVID@ && JSON@ != UUID@ && VERS@ != JVID@ && VERS@ != UUID@,
    {
        let tag: &[u8; 4] = &tags[i];
        proof {
            assert(views.take(i + 1).drop_last() =~= views.take(i as int));
            assert(views.take(i + 1).last() == tag@);
        }
        let empty: Vec<u8> = Vec::new();
        if same_tag(tag, &NAME) {
            answer_tag(&mut out, &mut done, tag, name.as_bytes(), Ghost(card));
        } else if same_tag(tag, &JSON) {
            answer_tag(&mut out, &mut done, tag, json_port.as_bytes(), Ghost(card));
        } else if same_tag(tag, &VERS) {
            answer_tag(&mut out, &mut done, tag, version.as_bytes(), Ghost(card));
        } else if same_tag(tag, &JVID) || same_tag(tag, &UUID) {
            assert(empty@ =~= seq![]);
            answer_tag(&mut out, &mut done, tag, empty.as_slice(), Ghost(card));
        }
    }
    proof {
        assert(views.take(tags@.len() as int) =~= views);
        assert(views.push(NAME@).drop_last() =~= views);
        assert(views.push(NAME@).push(JSON@).drop_last() =~= views.push(NAME@));
    }
    // Guarantee the essentials are present.
    answer_tag(&mut out, &mut done, &NAME, name.as_bytes(), Ghost(card));
    assert(tag_views(done@) == distinct_known(views.push(NAME@)));
    answer_tag(&mut out, &mut done, &JSON, json_port.as_bytes(), Ghost(card));
    out
}

/// The reply to a datagram, where there is one.
pub fn reply(request: &[u8], name: &str, version: &str, http_port: u16) -> (reply: Option<Vec<u8>>)
    ensures
        match reply {
            Some(bytes) => reply_to(
                request@,
                card_of(name@, version@, decimal(http_port as nat)),
            ) == Some(bytes@),
            None => reply_to(
                request@,
                card_of(name@, version@, decimal(http_port as nat)),
            ) is None,
        },
{
    if request.len() == 0 {
        return None;
    }
    match request[0] {
        0x65 => {
            let body: &[u8] = slice_subrange(request, 1, request.len());
            assert(body@ =~= request@.skip(1));
            let tags: Vec<[u8; 4]> = parse_requested_tags(body);
            let json_port: String = decimal_text(http_port as u64);
            Some(build_tlv_response(tags.as_slice(), name, version, json_port.as_str()))
        },
        0x64 => {
            let legacy: Vec<u8> = vec![0x44];
            assert(legacy@ =~= seq!['D' as u8]);
            Some(legacy)
        },
        _ => None,
    }
}

// ---------------------------------------------------------------------------
// Laws
// ---------------------------------------------------------------------------

/// Only tags that we recognise are answered, and each only once.
proof fn lemma_distinct_known(tags: Seq<Seq<u8>>)
    ensures
        distinct_known(tags).no_duplicates(),
        forall|tag: Seq<u8>| #[trigger]
            distinct_known(tags).contains(tag) <==> tags.contains(tag) && known(tag),
    decreases tags.len(),
{
    if tags.len() > 0 {
        let before = distinct_known(tags.drop_last());
        let last = tags.last();
        lemma_distinct_known(tags.drop_last());
        assert forall|tag: Seq<u8>| #[trigger] distinct_known(tags).contains(tag) <==> tags.contains(
            tag,
        ) && known(tag) by {
            if distinct_known(tags).contains(tag) {
                let i = choose|i: int|
                    0 <= i < distinct_known(tags).len() && distinct_known(tags)[i] == tag;
                if i < before.len() {
                    assert(before[i] == tag);
                    assert(before.contains(tag));
                    let j = choose|j: int|
                        0 <= j < tags.drop_last().len() && tags.drop_last()[j] == tag;
                    assert(tags[j] == tag);
                } else {
                    assert(tags[tags.len() - 1] == tag);
                }
            }
            if tags.contains(tag) && known(tag) {
                let j = choose|j: int| 0 <= j < tags.len() && tags[j] == tag;
                if j < tags.len() - 1 {
                    assert(tags.drop_last()[j] == tag);
                    assert(before.contains(tag));
                    let i = choose|i: int| 0 <= i < before.len() && before[i] == tag;
                    assert(distinct_known(tags)[i] == tag);
                } else if before.contains(last) {
                    let i = choose|i: int| 0 <= i < before.len() && before[i] == last;
                    assert(distinct_known(tags)[i] == tag);
                } else {
                    assert(distinct_known(tags)[before.len() as int] == tag);
                }
            }
        }
        if known(last) && !before.contains(last) {
            assert forall|i: int, j: int|
                0 <= i < j < before.push(last).len() implies before.push(last)[i] != before.push(
                last,
            )[j] by {
                assert(before.contains(before[i]));
            }
        }
    }
}

/// Whatever a client asks for, it is told each tag that we recognise once, and
/// the name and the port of the server in any case; it is told nothing that it
/// did not ask for besides these two.
pub proof fn law_essentials_are_always_told(tags: Seq<Seq<u8>>)
    ensures
        answered(tags).contains(NAME@),
        answered(tags).contains(JSON@),
        answered(tags).no_duplicates(),
        forall|tag: Seq<u8>| #[trigger]
            answered(tags).contains(tag) <==> known(tag) && (tags.contains(tag) || tag == NAME@
                || tag == JSON@),
{
    let all = tags.push(NAME@).push(JSON@);
    lemma_distinct_known(all);
    assert(all[tags.len() as int] == NAME@);
    assert(all[tags.len() as int + 1] == JSON@);
    assert forall|tag: Seq<u8>| #[trigger]
        answered(tags).contains(tag) <==> known(tag) && (tags.contains(tag) || tag == NAME@ || tag
            == JSON@) by {
        if tags.contains(tag) {
            let i = choose|i: int| 0 <= i < tags.len() && tags[i] == tag;
            assert(all[i] == tag);
        }
        if all.contains(tag) {
            let i = choose|i: int| 0 <= i < all.len() && all[i] == tag;
            if i < tags.len() {
                assert(tags[i] == tag);
            }
        }
    }
}

/// The entries for tags, from the front.
proof fn lemma_entries_from_front(card: Card, tags: Seq<Seq<u8>>)
    requires
        tags.len() > 0,
    ensures
        card.entries(tags) == card.entry(tags[0]) + card.entries(tags.drop_first()),
    decreases tags.len(),
{
    if tags.len() == 1 {
        assert(tags.drop_last() =~= seq![]);
        assert(tags.drop_first() =~= seq![]);
        assert(card.entries(tags) =~= card.entry(tags[0]) + card.entries(tags.drop_first()));
    } else {
        let front = tags.drop_last();
        lemma_entries_from_front(card, front);
        assert(front.drop_first() =~= tags.drop_first().drop_last());
        assert(card.entries(tags) =~= card.entry(tags[0]) + (card.entries(front.drop_first())
            + card.entry(tags.last())));
    }
}

/// The tags in entries are the tags that the entries are for.
proof fn lemma_tags_in_entries(card: Card, tags: Seq<Seq<u8>>)
    requires
        forall|i: int| 0 <= i < tags.len() ==> known(#[trigger] tags[i]),
    ensures
        tags_in(card.entries(tags)) == tags,
    decreases tags.len(),
{
    if tags.len() == 0 {
        assert(tags =~= seq![]);
    } else {
        let entry = card.entry(tags[0]);
        let rest = card.entries(tags.drop_first());
        lemma_entries_from_front(card, tags);
        lemma_tags_in_entries(card, tags.drop_first());
        let all = entry + rest;
        assert(known(tags[0]));
        assert(tags[0].len() == 4);
        assert(entry.len() == 5 + entry[4]);
        assert(all.take(4) =~= tags[0]);
        assert(all[4] == entry[4]);
        if rest.len() > 0 {
            assert(all.skip(5 + all[4]) =~= rest);
            assert(tags_in(all) =~= seq![tags[0]] + tags_in(rest));
        } else {
            assert(tags_in(rest) == tags.drop_first());
            assert(tags_in(rest) =~= seq![]);
        }
        assert(tags =~= seq![tags[0]] + tags.drop_first());
    }
}

/// The value of a tag is found in entries that hold it.
proof fn lemma_value_in_entries(card: Card, tags: Seq<Seq<u8>>, tag: Seq<u8>)
    requires
        forall|i: int| 0 <= i < tags.len() ==> known(#[trigger] tags[i]),
        tags.contains(tag),
    ensures
        value_in(card.entries(tags), tag) == Some(cut(card.value(tag).unwrap())),
    decreases tags.len(),
{
    let entry = card.entry(tags[0]);
    let rest = card.entries(tags.drop_first());
    lemma_entries_from_front(card, tags);
    let all = entry + rest;
    assert(known(tags[0]));
    assert(tags[0].len() == 4);
    assert(entry.len() == 5 + entry[4]);
    assert(all.take(4) =~= tags[0]);
    assert(all[4] == entry[4]);
    if tags[0] == tag {
        assert(all.subrange(5, 5 + all[4]) =~= cut(card.value(tag).unwrap()));
    } else {
        let i = choose|i: int| 0 <= i < tags.len() && tags[i] == tag;
        assert(tags.drop_first()[i - 1] == tag);
        lemma_value_in_entries(card, tags.drop_first(), tag);
        assert(all.skip(5 + all[4]) =~= rest);
    }
}

/// The answer reads as a TLV body: a client finds in it just the tags that are
/// answered, and with each of them what the server has to tell.
pub proof fn law_response_can_be_read(card: Card, tags: Seq<Seq<u8>>, tag: Seq<u8>)
    ensures
        tags_in(card.response(tags).skip(1)) == answered(tags),
        answered(tags).contains(tag) ==> value_in(card.response(tags).skip(1), tag) == Some(
            cut(card.value(tag).unwrap()),
        ),
{
    let told = answered(tags);
    lemma_distinct_known(tags.push(NAME@).push(JSON@));
    assert forall|i: int| 0 <= i < told.len() implies known(#[trigger] told[i]) by {
        assert(told.contains(told[i]));
    }
    assert(card.response(tags).skip(1) =~= card.entries(told));
    lemma_tags_in_entries(card, told);
    if told.contains(tag) {
        lemma_value_in_entries(card, told, tag);
    }
}

/// Entries of a TLV body, one after the other: a tag, one byte that says how
/// long the value is, and the value.
pub open spec fn tlv(entries: Seq<(Seq<u8>, Seq<u8>)>) -> Seq<u8>
    decreases entries.len(),
{
    if entries.len() == 0 {
        seq![]
    } else {
        entries[0].0 + seq![entries[0].1.len() as u8] + entries[0].1 + tlv(entries.drop_first())
    }
}

/// Whether entries can be written to a TLV body: tags have four bytes, and
/// values at most 255.
pub open spec fn writable(entries: Seq<(Seq<u8>, Seq<u8>)>) -> bool {
    forall|i: int|
        0 <= i < entries.len() ==> (#[trigger] entries[i]).0.len() == 4 && entries[i].1.len()
            <= 255
}

/// Every tag of a TLV body is read, whatever it is and whatever value comes with
/// it, in the order in which they stand. What follows the entries and is too
/// short to be another is left out, and an entry whose value is cut short still
/// counts.
pub proof fn law_every_tag_is_read(
    entries: Seq<(Seq<u8>, Seq<u8>)>,
    rest: Seq<u8>,
    tag: Seq<u8>,
    len: u8,
    short: Seq<u8>,
)
    requires
        writable(entries),
        rest.len() < 5,
        tag.len() == 4,
        short.len() <= len,
    ensures
        tags_in(tlv(entries)) == entries.map_values(|e: (Seq<u8>, Seq<u8>)| e.0),
        tags_in(tlv(entries) + rest) == tags_in(tlv(entries)),
        tags_in(tlv(entries) + (tag + seq![len] + short)) == tags_in(tlv(entries)).push(tag),
{
    let tags = entries.map_values(|e: (Seq<u8>, Seq<u8>)| e.0);
    let cut_short = tag + seq![len] + short;
    lemma_tags_of_tlv(entries, seq![]);
    lemma_tags_of_tlv(entries, rest);
    lemma_tags_of_tlv(entries, cut_short);
    assert(tlv(entries) + seq![] =~= tlv(entries));
    assert(tags + tags_in(seq![]) =~= tags);
    assert(tags + tags_in(rest) =~= tags);
    assert(cut_short.take(4) =~= tag);
    assert(cut_short[4] == len);
    assert(tags_in(cut_short) == seq![tag]);
    assert(tags + seq![tag] =~= tags.push(tag));
}

/// The tags of entries, and then those of what follows them.
proof fn lemma_tags_of_tlv(entries: Seq<(Seq<u8>, Seq<u8>)>, rest: Seq<u8>)
    requires
        writable(entries),
    ensures
        tags_in(tlv(entries) + rest) == entries.map_values(|e: (Seq<u8>, Seq<u8>)| e.0) + tags_in(
            rest,
        ),
    decreases entries.len(),
{
    let tags = entries.map_values(|e: (Seq<u8>, Seq<u8>)| e.0);
    if entries.len() == 0 {
        assert(tlv(entries) + rest =~= rest);
        assert(tags + tags_in(rest) =~= tags_in(rest));
    } else {
        let others = entries.drop_first();
        let tag = entries[0].0;
        let value = entries[0].1;
        assert(tag.len() == 4 && value.len() <= 255);
        assert forall|i: int| 0 <= i < others.len() implies (#[trigger] others[i]).0.len() == 4
            && others[i].1.len() <= 255 by {
            assert(others[i] == entries[i + 1]);
        }
        lemma_tags_of_tlv(others, rest);
        let body = tlv(entries) + rest;
        let after = tlv(others) + rest;
        assert(body =~= tag + seq![value.len() as u8] + value + after);
        assert(body.take(4) =~= tag);
        assert(body[4] == value.len());
        assert(body.skip(5 + body[4]) =~= after);
        assert(tags =~= seq![tag] + others.map_values(|e: (Seq<u8>, Seq<u8>)| e.0));
        if after.len() == 0 {
            assert(tags_in(after) =~= seq![]);
        }
        assert(tags_in(body) =~= seq![tag] + tags_in(after));
        assert(seq![tag] + (others.map_values(|e: (Seq<u8>, Seq<u8>)| e.0) + tags_in(rest)) =~= tags
            + tags_in(rest));
    }
}

/// The value of a tag in a TLV body is that of its first entry; a tag without an
/// entry has none.
pub proof fn law_value_is_that_of_the_first_entry(
    entries: Seq<(Seq<u8>, Seq<u8>)>,
    tag: Seq<u8>,
    k: int,
)
    requires
        writable(entries),
        0 <= k <= entries.len(),
        forall|i: int| 0 <= i < k ==> (#[trigger] entries[i]).0 != tag,
        k < entries.len() ==> entries[k].0 == tag,
    ensures
        value_in(tlv(entries), tag) == (if k < entries.len() {
            Some(entries[k].1)
        } else {
            None
        }),
    decreases entries.len(),
{
    if entries.len() > 0 {
        let others = entries.drop_first();
        let first = entries[0].0;
        let value = entries[0].1;
        let body = tlv(entries);
        assert(first.len() == 4 && value.len() <= 255);
        assert(body =~= first + seq![value.len() as u8] + value + tlv(others));
        assert(body.take(4) =~= first);
        assert(body[4] == value.len());
        assert(body.skip(5 + body[4]) =~= tlv(others));
        assert(body.subrange(5, 5 + body[4]) =~= value);
        if k > 0 {
            assert(first != tag);
            assert forall|i: int| 0 <= i < others.len() implies (#[trigger] others[i]).0.len() == 4
                && others[i].1.len() <= 255 by {
                assert(others[i] == entries[i + 1]);
            }
            assert forall|i: int| 0 <= i < k - 1 implies (#[trigger] others[i]).0 != tag by {
                assert(others[i] == entries[i + 1]);
            }
            law_value_is_that_of_the_first_entry(others, tag, k - 1);
        }
    }
}

/// A tag that entries are not for has no value in them.
proof fn lemma_no_value_in_entries(card: Card, tags: Seq<Seq<u8>>, tag: Seq<u8>)
    requires
        forall|i: int| 0 <= i < tags.len() ==> known(#[trigger] tags[i]),
        !tags.contains(tag),
    ensures
        value_in(card.entries(tags), tag) is None,
    decreases tags.len(),
{
    if tags.len() > 0 {
        let entry = card.entry(tags[0]);
        let others = tags.drop_first();
        let rest = card.entries(others);
        lemma_entries_from_front(card, tags);
        let all = entry + rest;
        assert(known(tags[0]));
        assert(tags[0].len() == 4);
        assert(entry.len() == 5 + entry[4]);
        assert(all.take(4) =~= tags[0]);
        assert(all[4] == entry[4]);
        assert(all.skip(5 + all[4]) =~= rest);
        assert forall|i: int| 0 <= i < others.len() implies known(#[trigger] others[i]) && others[i]
            != tag by {
            assert(others[i] == tags[i + 1]);
        }
        lemma_no_value_in_entries(card, others, tag);
    }
}

/// A request is answered in full: whatever tags it holds, known or not, in
/// whatever order and with whatever values, a client finds in the answer the
/// name of the server and its HTTP port; its version, where that was asked for;
/// and for each of the identifiers that was asked for an empty value. A text
/// that is longer than 255 bytes is cut off there. It finds no tag that it did
/// not ask for but the first two, and none twice.
#[verifier::spinoff_prover]
pub proof fn law_request_is_answered_in_full(
    entries: Seq<(Seq<u8>, Seq<u8>)>,
    name: Seq<char>,
    version: Seq<char>,
    http_port: u16,
    tag: Seq<u8>,
)
    requires
        writable(entries),
    ensures
        ({
            let card = card_of(name, version, decimal(http_port as nat));
            let asked = exists|i: int| 0 <= i < entries.len() && (#[trigger] entries[i]).0 == tag;
            let called = encode_utf8(name);
            let numbered = encode_utf8(version);
            let port = encode_utf8(decimal(http_port as nat));
            &&& reply_to(seq!['e' as u8] + tlv(entries), card) matches Some(reply)
            &&& reply.len() > 0 && reply[0] == 'E' as u8
            &&& tags_in(reply.skip(1)).no_duplicates()
            &&& value_in(reply.skip(1), tag) == (if tag == seq![0x4eu8, 0x41, 0x4d, 0x45] {
                Some(
                    if called.len() <= 255 {
                        called
                    } else {
                        called.take(255)
                    },
                )
            } else if tag == seq![0x4au8, 0x53, 0x4f, 0x4e] {
                Some(
                    if port.len() <= 255 {
                        port
                    } else {
                        port.take(255)
                    },
                )
            } else if asked && tag == seq![0x56u8, 0x45, 0x52, 0x53] {
                Some(
                    if numbered.len() <= 255 {
                        numbered
                    } else {
                        numbered.take(255)
                    },
                )
            } else if asked && (tag == seq![0x55u8, 0x55, 0x49, 0x44] || tag == seq![
                0x4au8,
                0x56,
                0x49,
                0x44,
            ]) {
                Some(seq![])
            } else {
                None
            })
        }),
{
    let card = card_of(name, version, decimal(http_port as nat));
    let request = seq!['e' as u8] + tlv(entries);
    let tags = entries.map_values(|e: (Seq<u8>, Seq<u8>)| e.0);
    assert(request.skip(1) =~= tlv(entries));
    assert(request[0] == 'e' as u8);
    lemma_tags_of_tlv(entries, seq![]);
    assert(tlv(entries) + seq![] =~= tlv(entries));
    assert(tags + tags_in(seq![]) =~= tags);
    let reply = card.response(tags);
    assert(reply_to(request, card) == Some(reply));
    law_response_can_be_read(card, tags, tag);
    law_essentials_are_always_told(tags);
    let told = answered(tags);
    assert(NAME@ =~= seq![0x4eu8, 0x41, 0x4d, 0x45]);
    assert(JSON@ =~= seq![0x4au8, 0x53, 0x4f, 0x4e]);
    assert(VERS@ =~= seq![0x56u8, 0x45, 0x52, 0x53]);
    assert(UUID@ =~= seq![0x55u8, 0x55, 0x49, 0x44]);
    assert(JVID@ =~= seq![0x4au8, 0x56, 0x49, 0x44]);
    assert(NAME@[0] != JSON@[0] && NAME@[0] != VERS@[0] && NAME@[0] != JVID@[0] && NAME@[0]
        != UUID@[0] && JSON@[0] != VERS@[0] && JSON@[1] != JVID@[1] && JSON@[0] != UUID@[0]
        && VERS@[0] != JVID@[0] && VERS@[0] != UUID@[0]);
    let asked = exists|i: int| 0 <= i < entries.len() && (#[trigger] entries[i]).0 == tag;
    if asked {
        let i = choose|i: int| 0 <= i < entries.len() && (#[trigger] entries[i]).0 == tag;
        assert(tags[i] == tag);
        assert(tags.contains(tag));
    } else if tags.contains(tag) {
        let i = choose|i: int| 0 <= i < tags.len() && tags[i] == tag;
        assert(entries[i].0 == tag);
    }
    if !told.contains(tag) {
        assert forall|i: int| 0 <= i < told.len() implies known(#[trigger] told[i]) by {
            assert(told.contains(told[i]));
        }
        assert(reply.skip(1) =~= card.entries(told));
        lemma_no_value_in_entries(card, told, tag);
    }
}

/// A datagram that begins with `d` is answered with a bare `D`; one that begins
/// with neither `e` nor `d`, and an empty one, is not answered.
pub proof fn law_other_datagrams(request: Seq<u8>, card: Card)
    ensures
        request.len() > 0 && request[0] == 'd' as u8 ==> reply_to(request, card) == Some(
            seq!['D' as u8],
        ),
        reply_to(request, card) is Some <==> request.len() > 0 && (request[0] == 'e' as u8
            || request[0] == 'd' as u8),
{
}

/// Tags are answered in the order in which they were asked for: where `a` is
/// asked for before `b` is for the first time, it is answered before it. Name
/// and port follow at the end where they were not asked for.
pub proof fn law_answers_come_in_the_order_asked(
    tags: Seq<Seq<u8>>,
    a: Seq<u8>,
    b: Seq<u8>,
    k: int,
)
    requires
        0 <= k < tags.len(),
        tags[k] == a,
        a != b,
        known(a),
        forall|j: int| 0 <= j <= k ==> tags[j] != b,
        known(b) && tags.contains(b) || b == NAME@ || b == JSON@,
    ensures
        exists|p: int, q: int|
            0 <= p < q < answered(tags).len() && #[trigger] answered(tags)[p] == a
                && #[trigger] answered(tags)[q] == b,
{
    let all = tags.push(NAME@).push(JSON@);
    assert(all[tags.len() as int] == NAME@ && all[tags.len() as int + 1] == JSON@);
    if tags.contains(b) {
        let i = choose|i: int| 0 <= i < tags.len() && tags[i] == b;
        assert(all[i] == b);
    }
    assert(all.contains(b));
    assert(all[k] == a);
    assert forall|j: int| 0 <= j <= k implies all[j] != b by {
        assert(all[j] == tags[j]);
    }
    lemma_order_is_kept(all, a, b, k);
    let told = answered(tags);
    assert(told == distinct_known(all));
    let (p, q) = choose|p: int, q: int|
        0 <= p < q < distinct_known(all).len() && #[trigger] distinct_known(all)[p] == a
            && #[trigger] distinct_known(all)[q] == b;
    assert(answered(tags)[p] == a && answered(tags)[q] == b);
}

/// The tags that we recognise stay in order.
proof fn lemma_order_is_kept(tags: Seq<Seq<u8>>, a: Seq<u8>, b: Seq<u8>, k: int)
    requires
        0 <= k < tags.len(),
        tags[k] == a,
        known(a),
        known(b),
        tags.contains(b),
        forall|j: int| 0 <= j <= k ==> tags[j] != b,
    ensures
        exists|p: int, q: int|
            0 <= p < q < distinct_known(tags).len() && #[trigger] distinct_known(tags)[p] == a
                && #[trigger] distinct_known(tags)[q] == b,
    decreases tags.len(),
{
    let front = tags.drop_last();
    let before = distinct_known(front);
    let j = choose|j: int| 0 <= j < tags.len() && tags[j] == b;
    assert(j > k);
    assert(front[k] == a);
    lemma_distinct_known(front);
    if front.contains(b) {
        assert forall|i: int| 0 <= i <= k implies front[i] != b by {
            assert(front[i] == tags[i]);
        }
        lemma_order_is_kept(front, a, b, k);
        let (p, q) = choose|p: int, q: int|
            0 <= p < q < before.len() && #[trigger] before[p] == a && #[trigger] before[q] == b;
        assert(distinct_known(tags)[p] == a && distinct_known(tags)[q] == b);
    } else {
        if j < front.len() {
            assert(front[j] == b);
        }
        assert(tags.last() == b);
        assert(!before.contains(b));
        assert(before.contains(a));
        let p = choose|p: int| 0 <= p < before.len() && before[p] == a;
        let q = before.len() as int;
        assert(distinct_known(tags) == before.push(b));
        assert(distinct_known(tags)[p] == a && distinct_known(tags)[q] == b);
    }
}

} // verus!
