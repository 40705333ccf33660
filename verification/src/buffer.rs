//! One-writer / N-reader broadcast buffer.
//!
//! The input pump pushes PCM chunks in; every connected HTTP client gets its
//! own [`BroadcastReceiver`] cursor and reads chunks independently. Chunks are
//! evicted once the buffer exceeds the size cap, so a slow or stalled reader
//! can never block the writer - it simply skips forward to the oldest chunk
//! still retained (dropping audio, never wedging the stream). Every position is
//! tracked in absolute stream bytes so subscribers learn exactly where their
//! stream begins and how much a forced skip dropped - the sync engine needs
//! both to map a player's playback time to a content position.
//!
//! The buffer is a plain value: sharing it between threads, and waking the
//! readers after a push or a close, is up to whoever owns it.

use std::collections::VecDeque;
use vstd::prelude::*;
use vstd::slice::slice_to_vec;

verus! {

/// Default retention: ~4 MB, roughly 23 s of 44.1 kHz S16LE stereo.
pub const MAX_BUFFERED: usize = 4194304;

/// The smallest retention a buffer is ever given.
pub const MIN_BUFFERED: usize = 65536;

/// Every byte of a list of chunks, in order.
pub open spec fn joined(chunks: Seq<Seq<u8>>) -> Seq<u8>
    decreases chunks.len(),
{
    if chunks.len() == 0 {
        Seq::empty()
    } else {
        joined(chunks.drop_last()) + chunks.last()
    }
}

/// The stream position at which chunk number `k` begins.
pub open spec fn start_of(chunks: Seq<Seq<u8>>, k: int) -> nat {
    joined(chunks.take(k)).len()
}

/// What a broadcast buffer stands for: every chunk ever accepted, of which the
/// oldest `evicted` ones are no longer held.
pub struct StreamModel {
    pub chunks: Seq<Seq<u8>>,
    pub evicted: nat,
    pub cap: nat,
    pub closed: bool,
}

impl StreamModel {
    /// Bytes accepted so far: the position of the live write head.
    pub open spec fn head(self) -> nat {
        joined(self.chunks).len()
    }

    /// Bytes from the start of chunk `k` to the write head.
    pub open spec fn bytes_from(self, k: int) -> int {
        self.head() - start_of(self.chunks, k)
    }

    /// The chunks that are still held.
    pub open spec fn retained(self) -> Seq<Seq<u8>> {
        self.chunks.skip(self.evicted as int)
    }

    /// Whether a push of `data` leads from here to `after`. An empty chunk, or
    /// one that comes after the close, changes nothing; any other is the new
    /// end of the stream. What is then still held, follows from the cap.
    pub open spec fn accepted(self, data: Seq<u8>, after: StreamModel) -> bool {
        if data.len() == 0 || self.closed {
            after == self
        } else {
            &&& after.wf()
            &&& after.chunks == self.chunks.push(data)
            &&& after.cap == self.cap
            &&& !after.closed
            &&& after.evicted >= self.evicted
        }
    }

    /// No chunk is empty, and the chunks held are the most recent ones that
    /// fit the cap together: one more would not.
    pub open spec fn wf(self) -> bool {
        &&& self.evicted <= self.chunks.len()
        &&& forall|i: int| 0 <= i < self.chunks.len() ==> (#[trigger] self.chunks[i]).len() > 0
        &&& self.bytes_from(self.evicted as int) <= self.cap
        &&& self.evicted > 0 ==> self.bytes_from(self.evicted - 1) > self.cap
    }
}

/// Result of a receive.
pub enum RecvResult {
    Data {
        chunk: Vec<u8>,
        /// Bytes of stream this reader lost just before `chunk` because it
        /// lagged past retention (0 in the normal case).
        skipped_bytes: u64,
    },
    Closed,
}

struct Chunk {
    seq: u64,
    /// Absolute byte position of this chunk's first byte in the global stream.
    start: u64,
    data: Vec<u8>,
}

/// Rolling buffer of recently-written PCM, addressed by monotonic sequence.
pub struct BroadcastBuffer {
    chunks: VecDeque<Chunk>,
    next_seq: u64,
    /// Total bytes ever pushed - the absolute position of the live write head.
    pushed: u64,
    total_bytes: usize,
    max_buffered: usize,
    closed: bool,
    history: Ghost<Seq<Seq<u8>>>,
}

impl View for BroadcastBuffer {
    type V = StreamModel;

    closed spec fn view(&self) -> StreamModel {
        StreamModel {
            chunks: self.history@,
            evicted: (self.next_seq - self.chunks@.len()) as nat,
            cap: self.max_buffered as nat,
            closed: self.closed,
        }
    }
}

/// Chunk number `k` of a stream takes up the bytes between its start and the
/// start of the next one.
pub proof fn lemma_start_step(chunks: Seq<Seq<u8>>, k: int)
    requires
        0 <= k < chunks.len(),
    ensures
        start_of(chunks, k + 1) == start_of(chunks, k) + chunks[k].len(),
{
    assert(chunks.take(k + 1).drop_last() =~= chunks.take(k));
}

/// Starts never run backward, and move on by at least a byte per chunk where
/// no chunk is empty.
pub proof fn lemma_start_monotone(chunks: Seq<Seq<u8>>, j: int, k: int)
    requires
        0 <= j <= k <= chunks.len(),
        forall|i: int| 0 <= i < chunks.len() ==> (#[trigger] chunks[i]).len() > 0,
    ensures
        start_of(chunks, j) + (k - j) <= start_of(chunks, k),
    decreases k - j,
{
    if j < k {
        lemma_start_step(chunks, k - 1);
        lemma_start_monotone(chunks, j, k - 1);
    }
}

/// The position after the last chunk is the length of the whole stream.
proof fn lemma_start_end(chunks: Seq<Seq<u8>>)
    ensures
        start_of(chunks, chunks.len() as int) == joined(chunks).len(),
        start_of(chunks, 0) == 0,
{
    assert(chunks.take(chunks.len() as int) =~= chunks);
    assert(chunks.take(0).len() == 0);
}

/// A later chunk leaves the start of every earlier one where it was.
proof fn lemma_start_push(chunks: Seq<Seq<u8>>, last: Seq<u8>, k: int)
    requires
        0 <= k <= chunks.len(),
    ensures
        start_of(chunks.push(last), k) == start_of(chunks, k),
        joined(chunks.push(last)) == joined(chunks) + last,
{
    assert(chunks.push(last).take(k) =~= chunks.take(k));
    assert(chunks.push(last).drop_last() =~= chunks);
}

impl BroadcastBuffer {
    /// The fields agree with the stream they stand for.
    pub closed spec fn wf(&self) -> bool {
        &&& self@.wf()
        &&& self.chunks@.len() <= self.next_seq
        &&& self.history@.len() == self.next_seq
        &&& self.pushed == self@.head()
        &&& self.total_bytes == self@.bytes_from(self@.evicted as int)
        &&& self.max_buffered >= MIN_BUFFERED
        &&& forall|i: int|
            0 <= i < self.chunks@.len() ==> (#[trigger] self.chunks@[i]).holds(
                self.history@,
                self@.evicted + i,
            )
    }

    /// A buffer holds the most recent chunks that fit its cap, and no others.
    pub proof fn law_retention_is_bounded(&self)
        requires
            self.wf(),
        ensures
            self@.wf(),
            self@.cap >= MIN_BUFFERED,
            self@.head() <= u64::MAX,
    {
    }

    /// An empty stream, held up to `max_buffered` bytes (at least 64 KiB).
    pub fn new(max_buffered: usize) -> (buf: Self)
        ensures
            buf.wf(),
            buf@.chunks == Seq::<Seq<u8>>::empty(),
            buf@.evicted == 0,
            buf@.cap == if max_buffered >= MIN_BUFFERED { max_buffered } else { MIN_BUFFERED },
            max_buffered >= 65536 ==> buf@.cap == max_buffered,
            max_buffered < 65536 ==> buf@.cap == 65536,
            !buf@.closed,
    {
        let cap: usize = if max_buffered >= MIN_BUFFERED { max_buffered } else { MIN_BUFFERED };
        let buf = BroadcastBuffer {
            chunks: VecDeque::new(),
            next_seq: 0,
            pushed: 0,
            total_bytes: 0,
            max_buffered: cap,
            closed: false,
            history: Ghost(Seq::empty()),
        };
        proof {
            lemma_start_end(buf.history@);
        }
        buf
    }

    /// Total bytes ever pushed - the absolute position of the live write head.
    pub fn pushed(&self) -> (n: u64)
        requires
            self.wf(),
        ensures
            n == self@.head(),
    {
        self.pushed
    }

    /// Append a chunk, evicting the oldest chunks past the size cap. An empty
    /// chunk, or one that comes after the close, changes nothing.
    pub fn push(&mut self, data: &[u8])
        requires
            old(self).wf(),
            old(self)@.closed || old(self)@.head() + data@.len() <= u64::MAX,
        ensures
            final(self).wf(),
            final(self)@.wf(),
            old(self)@.accepted(data@, final(self)@),
    {
        if data.len() == 0 || self.closed {
            return;
        }
        let ghost before = self@;
        proof {
            lemma_start_end(before.chunks);
            lemma_start_monotone(before.chunks, 0, before.chunks.len() as int);
            lemma_start_push(before.chunks, data@, before.chunks.len() as int);
            lemma_start_push(before.chunks, data@, before.evicted as int);
            if before.evicted > 0 {
                lemma_start_push(before.chunks, data@, before.evicted - 1);
            }
        }
        let chunk = Chunk { seq: self.next_seq, start: self.pushed, data: slice_to_vec(data) };
        self.next_seq = self.next_seq + 1;
        self.pushed = self.pushed + data.len() as u64;
        self.history = Ghost(before.chunks.push(data@));
        let mut total: u128 = self.total_bytes as u128 + data.len() as u128;
        self.chunks.push_back(chunk);
        proof {
            assert forall|i: int| 0 <= i < self.chunks@.len() implies (
            #[trigger] self.chunks@[i]).holds(self.history@, before.evicted + i) by {
                lemma_start_push(before.chunks, data@, before.evicted + i);
                if i < self.chunks@.len() - 1 {
                    assert(old(self).chunks@[i].holds(before.chunks, before.evicted + i));
                }
            }
            lemma_start_end(self.history@);
        }
        while total > self.max_buffered as u128
            invariant
                self.history@ == before.chunks.push(data@),
                self.max_buffered == before.cap,
                self.max_buffered >= MIN_BUFFERED,
                !self.closed,
                self.chunks@.len() <= self.next_seq,
                self.history@.len() == self.next_seq,
                self.pushed == joined(self.history@).len(),
                self@.evicted >= before.evicted,
                forall|i: int|
                    0 <= i < self.history@.len() ==> (#[trigger] self.history@[i]).len() > 0,
                total == self.pushed - start_of(self.history@, self@.evicted as int),
                self@.evicted > 0 ==> self.pushed - start_of(self.history@, self@.evicted - 1)
                    > self.max_buffered,
                start_of(self.history@, self.history@.len() as int) == joined(self.history@).len(),
                forall|i: int|
                    0 <= i < self.chunks@.len() ==> (#[trigger] self.chunks@[i]).holds(
                        self.history@,
                        self@.evicted + i,
                    ),
            ensures
                total <= self.max_buffered,
            decreases self.chunks@.len(),
        {
            let ghost held = self.chunks@;
            let ghost gone = self@.evicted as int;
            match self.chunks.pop_front() {
                Some(old_chunk) => {
                    proof {
                        assert(held[0].holds(self.history@, gone));
                        lemma_start_step(self.history@, gone);
                        lemma_start_monotone(self.history@, gone + 1, self.history@.len() as int);
                        assert forall|i: int| 0 <= i < self.chunks@.len() implies (
                        #[trigger] self.chunks@[i]).holds(self.history@, gone + 1 + i) by {
                            assert(held[i + 1].holds(self.history@, gone + (i + 1)));
                        }
                    }
                    total = total - old_chunk.data.len() as u128;
                },
                None => {
                    assert(gone == self.history@.len());
                    break;
                },
            }
        }
        self.total_bytes = total as usize;
    }

    /// Subscribe from the current write position - live only, no backlog. The
    /// receiver's [`BroadcastReceiver::position`] is exactly the byte at which
    /// this reader's stream begins.
    pub fn subscribe(&self) -> (rx: BroadcastReceiver)
        requires
            self.wf(),
        ensures
            rx.follows(self@),
            rx.next() == self@.chunks.len(),
            rx.at() == self@.head(),
            rx.is_live(self@),
    {
        proof {
            lemma_start_end(self@.chunks);
        }
        BroadcastReceiver { next_seq: self.next_seq, position: self.pushed }
    }

    /// End the stream: readers get what is still held, then
    /// [`RecvResult::Closed`], so that they can exit.
    pub fn close(&mut self)
        requires
            old(self).wf(),
        ensures
            final(self).wf(),
            final(self)@ == (StreamModel { closed: true, ..old(self)@ }),
    {
        self.closed = true;
    }
}

/// An independent cursor into a [`BroadcastBuffer`].
pub struct BroadcastReceiver {
    next_seq: u64,
    /// Absolute stream position of the next byte this reader will receive.
    position: u64,
}

impl BroadcastReceiver {
    /// Number of the next chunk this reader wants.
    pub closed spec fn next(&self) -> int {
        self.next_seq as int
    }

    /// Stream position of the next byte this reader wants.
    pub closed spec fn at(&self) -> int {
        self.position as int
    }

    /// The cursor stands at the start of a chunk of this stream, or at its
    /// write head.
    pub open spec fn follows(&self, stream: StreamModel) -> bool {
        &&& 0 <= self.next() <= stream.chunks.len()
        &&& self.at() == start_of(stream.chunks, self.next())
    }

    /// The cursor stands at the write head of this stream, behind all that was
    /// pushed.
    pub open spec fn is_live(&self, stream: StreamModel) -> bool {
        self.follows(stream) && self.next() == stream.chunks.len() && self.at() == stream.head()
    }

    /// The chunk a receive hands out: the next one, or, where that one is no
    /// longer held, the oldest that is.
    pub open spec fn target(&self, stream: StreamModel) -> int {
        if self.next() < stream.evicted {
            stream.evicted as int
        } else {
            self.next()
        }
    }

    /// Whether a receive from a stream hands out `received`, and leads from
    /// here to `after`: the target chunk, if there is one, with the bytes lost
    /// before it; else the end of a closed stream; else nothing yet.
    pub open spec fn received(
        self,
        stream: StreamModel,
        received: Option<RecvResult>,
        after: BroadcastReceiver,
    ) -> bool {
        let k = self.target(stream);
        if k < stream.chunks.len() {
            &&& received matches Some(RecvResult::Data { chunk, skipped_bytes })
            &&& chunk@ == stream.chunks[k]
            &&& skipped_bytes == start_of(stream.chunks, k) - self.at()
            &&& after.next() == k + 1
            &&& after.at() == self.at() + skipped_bytes + chunk@.len()
        } else {
            &&& after == self
            &&& stream.closed ==> received == Some(RecvResult::Closed)
            &&& !stream.closed ==> received is None
        }
    }

    /// Absolute stream position of the next byte this reader will receive; at
    /// subscribe time, the byte at which its stream begins.
    pub fn position(&self) -> (at: u64)
        ensures
            at == self.at(),
    {
        self.position
    }

    /// Receive the next chunk, or learn that the buffer is closed and
    /// drained. `None` means that the reader has to block: wait until the next
    /// push or close, then ask again.
    pub fn recv_blocking(&mut self, buf: &BroadcastBuffer) -> (received: Option<RecvResult>)
        requires
            buf.wf(),
            old(self).follows(buf@),
        ensures
            final(self).follows(buf@),
            old(self).received(buf@, received, *final(self)),
    {
        if buf.chunks.len() > 0 {
            let front: &Chunk = &buf.chunks[0];
            assert(front.holds(buf@.chunks, buf@.evicted as int));
            // Lagging reader: fast-forward to the oldest retained chunk,
            // recording how much stream it lost.
            let mut skipped_bytes: u64 = 0;
            if self.next_seq < front.seq {
                proof {
                    lemma_start_monotone(buf@.chunks, self.next_seq as int, buf@.evicted as int);
                }
                skipped_bytes = front.start - self.position;
                self.next_seq = front.seq;
                self.position = front.start;
            }
            if self.next_seq < buf.next_seq {
                let idx: usize = (self.next_seq - front.seq) as usize;
                let found: &Chunk = &buf.chunks[idx];
                proof {
                    assert(found.holds(buf@.chunks, buf@.evicted + idx));
                    lemma_start_step(buf@.chunks, self.next_seq as int);
                    lemma_start_monotone(
                        buf@.chunks,
                        self.next_seq + 1,
                        buf@.chunks.len() as int,
                    );
                    lemma_start_end(buf@.chunks);
                }
                let chunk: Vec<u8> = slice_to_vec(found.data.as_slice());
                self.next_seq = self.next_seq + 1;
                self.position = self.position + chunk.len() as u64;
                return Some(RecvResult::Data { chunk, skipped_bytes });
            }
        }
        if buf.closed {
            return Some(RecvResult::Closed);
        }
        None
    }
}

/// A reader is never left behind by what the writer does: its cursor still
/// stands on the stream after any number of pushes and a close.
pub proof fn law_cursor_survives_writes(
    rx: BroadcastReceiver,
    before: StreamModel,
    after: StreamModel,
)
    requires
        rx.follows(before),
        before.chunks.is_prefix_of(after.chunks),
    ensures
        rx.follows(after),
{
    assert(after.chunks.take(rx.next()) =~= before.chunks.take(rx.next()));
}

/// What a reader is handed is the stream itself: the bytes of chunk `k` are
/// those that the writer put between the chunk's start and its end.
pub proof fn law_chunks_are_the_stream(chunks: Seq<Seq<u8>>, k: int)
    requires
        0 <= k < chunks.len(),
    ensures
        start_of(chunks, k + 1) <= joined(chunks).len(),
        joined(chunks).subrange(start_of(chunks, k) as int, start_of(chunks, k + 1) as int)
            == chunks[k],
    decreases chunks.len(),
{
    let front = chunks.drop_last();
    lemma_start_step(chunks, k);
    lemma_start_end(chunks);
    if k == chunks.len() - 1 {
        assert(chunks.take(k) =~= front);
    } else {
        law_chunks_are_the_stream(front, k);
        assert(front.take(k) =~= chunks.take(k));
        assert(front.take(k + 1) =~= chunks.take(k + 1));
        assert(joined(chunks).subrange(
            start_of(chunks, k) as int,
            start_of(chunks, k + 1) as int,
        ) =~= joined(front).subrange(start_of(chunks, k) as int, start_of(chunks, k + 1) as int));
    }
}

/// Reading on is gapless: the chunks from `j` up to `k`, put together, are the
/// stream from the start of the one to the start of the other.
pub proof fn law_reading_on_is_gapless(chunks: Seq<Seq<u8>>, j: int, k: int)
    requires
        0 <= j <= k <= chunks.len(),
    ensures
        start_of(chunks, j) <= start_of(chunks, k) <= joined(chunks).len(),
        joined(chunks.subrange(j, k)) == joined(chunks).subrange(
            start_of(chunks, j) as int,
            start_of(chunks, k) as int,
        ),
    decreases k - j,
{
    if j < k {
        law_reading_on_is_gapless(chunks, j, k - 1);
        law_chunks_are_the_stream(chunks, k - 1);
        lemma_start_step(chunks, k - 1);
        assert(chunks.subrange(j, k).drop_last() =~= chunks.subrange(j, k - 1));
        assert(joined(chunks).subrange(start_of(chunks, j) as int, start_of(chunks, k) as int)
            =~= joined(chunks).subrange(
            start_of(chunks, j) as int,
            start_of(chunks, k - 1) as int,
        ) + chunks[k - 1]);
    } else {
        lemma_prefix_len(chunks, j);
        assert(joined(chunks.subrange(j, k)).len() == 0);
    }
}

/// No chunk starts past the end of the stream.
proof fn lemma_prefix_len(chunks: Seq<Seq<u8>>, k: int)
    requires
        0 <= k <= chunks.len(),
    ensures
        start_of(chunks, k) <= joined(chunks).len(),
    decreases chunks.len() - k,
{
    if k < chunks.len() {
        lemma_prefix_len(chunks, k + 1);
        lemma_start_step(chunks, k);
    } else {
        lemma_start_end(chunks);
    }
}

/// A reader that stalls briefly is caught up from the buffer: as long as what
/// it has yet to read fits the retention window, none of it is gone, and the
/// next receive skips nothing.
pub proof fn law_brief_stall_loses_nothing(rx: BroadcastReceiver, stream: StreamModel)
    requires
        stream.wf(),
        rx.follows(stream),
        stream.head() - rx.at() <= stream.cap,
    ensures
        rx.next() >= stream.evicted,
        rx.target(stream) == rx.next(),
{
    if rx.next() < stream.evicted {
        lemma_start_monotone(stream.chunks, rx.next(), stream.evicted - 1);
    }
}

/// A reader that falls further behind than the window skips forward, by a
/// positive number of bytes, and to no later than it has to: it lands on the
/// oldest chunk still held.
pub proof fn law_long_stall_skips_forward(rx: BroadcastReceiver, stream: StreamModel)
    requires
        stream.wf(),
        rx.follows(stream),
        stream.head() - rx.at() > stream.cap,
    ensures
        rx.next() < stream.evicted,
        rx.target(stream) == stream.evicted,
        start_of(stream.chunks, rx.target(stream)) > rx.at(),
{
    if rx.next() >= stream.evicted {
        lemma_start_monotone(stream.chunks, stream.evicted as int, rx.next());
    } else {
        lemma_start_monotone(stream.chunks, rx.next(), stream.evicted as int);
    }
}

/// The chunks that a series of pushes adds to a stream: those that are not
/// empty.
pub open spec fn nonempty(pushes: Seq<Seq<u8>>) -> Seq<Seq<u8>>
    decreases pushes.len(),
{
    if pushes.len() == 0 {
        Seq::empty()
    } else if pushes.last().len() == 0 {
        nonempty(pushes.drop_last())
    } else {
        nonempty(pushes.drop_last()).push(pushes.last())
    }
}

/// Whether a series of pushes leads through these states of an open stream that
/// begins empty.
pub open spec fn is_run(states: Seq<StreamModel>, pushes: Seq<Seq<u8>>) -> bool {
    &&& states.len() == pushes.len() + 1
    &&& states[0].wf()
    &&& states[0].chunks == Seq::<Seq<u8>>::empty()
    &&& !states[0].closed
    &&& forall|i: int|
        0 <= i < pushes.len() ==> states[i].accepted(#[trigger] pushes[i], states[i + 1])
}

/// The bytes from the start of a chunk to the write head are those of the
/// chunks from there on.
proof fn lemma_bytes_from(stream: StreamModel, k: int)
    requires
        0 <= k <= stream.chunks.len(),
    ensures
        stream.bytes_from(k) == joined(stream.chunks.skip(k)).len(),
{
    let n = stream.chunks.len() as int;
    law_reading_on_is_gapless(stream.chunks, k, n);
    lemma_start_end(stream.chunks);
    assert(stream.chunks.skip(k) =~= stream.chunks.subrange(k, n));
}

/// What is held is the longest end of the stream that fits the cap, with its
/// chunks and their order unchanged: the chunks from `k` on fit together if and
/// only if all of them are held.
pub proof fn law_longest_fitting_end_is_retained(stream: StreamModel, k: int)
    requires
        stream.wf(),
        0 <= k <= stream.chunks.len(),
    ensures
        joined(stream.chunks.skip(k)).len() <= stream.cap <==> k >= stream.evicted,
        joined(stream.retained()).len() <= stream.cap,
        k >= stream.evicted ==> stream.chunks.skip(k) == stream.retained().skip(
            k - stream.evicted,
        ),
{
    lemma_bytes_from(stream, k);
    lemma_bytes_from(stream, stream.evicted as int);
    if k >= stream.evicted {
        lemma_start_monotone(stream.chunks, stream.evicted as int, k);
        assert(stream.chunks.skip(k) =~= stream.retained().skip(k - stream.evicted));
    } else {
        lemma_start_monotone(stream.chunks, k, stream.evicted - 1);
    }
}

/// After any series of pushes the stream is what was pushed, in order, without
/// the empty slices; of it the longest end that fits the cap is held, each
/// chunk starting at the summed length of those before it, and the write head
/// stands at the summed length of all.
pub proof fn law_stream_is_what_was_pushed(states: Seq<StreamModel>, pushes: Seq<Seq<u8>>)
    requires
        is_run(states, pushes),
    ensures
        states.last().wf(),
        states.last().chunks == nonempty(pushes),
        states.last().head() == joined(pushes).len(),
        states.last().cap == states[0].cap,
        !states.last().closed,
        forall|k: int|
            0 <= k <= states.last().chunks.len() ==> (joined(
                #[trigger] states.last().chunks.skip(k),
            ).len() <= states.last().cap <==> k >= states.last().evicted),
    decreases pushes.len(),
{
    if pushes.len() > 0 {
        let front = pushes.drop_last();
        let n = front.len() as int;
        assert forall|i: int| 0 <= i < front.len() implies states.drop_last()[i].accepted(
            #[trigger] front[i],
            states.drop_last()[i + 1],
        ) by {
            assert(front[i] == pushes[i]);
        }
        law_stream_is_what_was_pushed(states.drop_last(), front);
        let before = states[n];
        let data = pushes[n];
        assert(states.drop_last().last() == before);
        assert(before.accepted(data, states[n + 1]));
        assert(states.last() == states[n + 1]);
        if data.len() > 0 {
            assert(before.chunks.push(data).drop_last() =~= before.chunks);
        }
    }
    assert forall|k: int| 0 <= k <= states.last().chunks.len() implies (joined(
        #[trigger] states.last().chunks.skip(k),
    ).len() <= states.last().cap <==> k >= states.last().evicted) by {
        law_longest_fitting_end_is_retained(states.last(), k);
    }
}

/// A subscription is live only: whatever happens to the stream afterwards,
/// nothing that was pushed before is delivered, even if still held, and the
/// first chunk that is delivered without loss is the next one accepted.
pub proof fn law_subscription_begins_with_the_next_push(
    rx: BroadcastReceiver,
    before: StreamModel,
    later: StreamModel,
)
    requires
        rx.follows(before),
        rx.next() == before.chunks.len(),
        before.chunks.is_prefix_of(later.chunks),
    ensures
        rx.at() == before.head(),
        rx.target(later) >= before.chunks.len(),
        later.evicted <= before.chunks.len() ==> rx.target(later) == before.chunks.len(),
        start_of(later.chunks, before.chunks.len() as int) == before.head(),
{
    lemma_start_end(before.chunks);
    assert(later.chunks.take(before.chunks.len() as int) =~= before.chunks);
}

/// A close is for good: no later push changes anything, what is held stays
/// held, and to close again changes nothing.
pub proof fn law_close_is_for_good(stream: StreamModel, data: Seq<u8>, after: StreamModel)
    requires
        (StreamModel { closed: true, ..stream }).accepted(data, after),
    ensures
        after.closed,
        after.chunks == stream.chunks,
        after.retained() == stream.retained(),
        after.head() == stream.head(),
        (StreamModel { closed: true, ..after }) == after,
{
}

/// A reader of a closed stream never waits: it gets the chunks that are held
/// and that it has not read, one by one, and after them the end on every
/// further receive.
pub proof fn law_closed_stream_is_drained_then_ends(
    rx: BroadcastReceiver,
    stream: StreamModel,
    received: Option<RecvResult>,
    after: BroadcastReceiver,
)
    requires
        stream.wf(),
        stream.closed,
        rx.follows(stream),
        rx.received(stream, received, after),
    ensures
        received is Some,
        received->0 is Data <==> rx.target(stream) < stream.chunks.len(),
        received->0 is Data ==> after.next() == rx.target(stream) + 1 && after.target(stream)
            == after.next(),
        received->0 is Closed ==> after == rx,
{
}

/// A receive hands out the stream itself: one whole chunk, being the bytes
/// between where the reader stood, moved on by what it lost, and where it
/// stands afterwards. It loses something exactly where the chunk that it stood
/// at is no longer held, and is then handed the oldest that is.
pub proof fn law_receive_hands_out_the_stream(
    rx: BroadcastReceiver,
    stream: StreamModel,
    chunk: Vec<u8>,
    skipped_bytes: u64,
    after: BroadcastReceiver,
)
    requires
        stream.wf(),
        rx.follows(stream),
        rx.received(stream, Some(RecvResult::Data { chunk, skipped_bytes }), after),
    ensures
        after.at() == rx.at() + skipped_bytes + chunk@.len(),
        0 <= rx.at() + skipped_bytes <= after.at() <= stream.head(),
        chunk@ == joined(stream.chunks).subrange(rx.at() + skipped_bytes, after.at()),
        skipped_bytes == 0 <==> rx.next() >= stream.evicted,
        skipped_bytes == 0 ==> chunk@ == stream.chunks[rx.next()],
        skipped_bytes > 0 ==> chunk@ == stream.retained()[0],
        after.follows(stream),
{
    let k = rx.target(stream);
    law_chunks_are_the_stream(stream.chunks, k);
    lemma_start_step(stream.chunks, k);
    lemma_start_monotone(stream.chunks, rx.next(), k);
}

impl Chunk {
    /// This is chunk number `k` of the stream.
    spec fn holds(self, chunks: Seq<Seq<u8>>, k: int) -> bool {
        &&& self.seq == k
        &&& self.start == start_of(chunks, k)
        &&& self.data@ == chunks[k]
    }
}

/// A subscription is live: of all that its first receive may hand out, whatever
/// has happened to the stream by then, nothing was pushed before it; and as long
/// as the first chunk pushed after it is still held, that is what it gets, with
/// nothing lost, from the position that was the write head.
pub proof fn law_live_reader_gets_no_backlog(
    rx: BroadcastReceiver,
    before: StreamModel,
    later: StreamModel,
    chunk: Vec<u8>,
    skipped_bytes: u64,
    after: BroadcastReceiver,
)
    requires
        rx.is_live(before),
        later.wf(),
        before.chunks.is_prefix_of(later.chunks),
        rx.received(later, Some(RecvResult::Data { chunk, skipped_bytes }), after),
    ensures
        rx.at() == joined(before.chunks).len(),
        exists|k: int|
            before.chunks.len() <= k < later.chunks.len() && chunk@ == #[trigger] later.chunks[k],
        later.evicted <= before.chunks.len() ==> skipped_bytes == 0 && chunk@
            == later.chunks[before.chunks.len() as int],
{
    law_cursor_survives_writes(rx, before, later);
    let k = rx.target(later);
    lemma_start_end(before.chunks);
    assert(later.chunks[k] == chunk@);
    assert(k >= before.chunks.len());
}

} // verus!
