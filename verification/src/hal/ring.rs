//! The loopback ring: what the output side writes, the input side reads back.
//!
//! The ring holds the frames of the last 16384 sample times. A sample is kept
//! as the bit pattern of its floating-point value; silence is all zeros.

use crate::hal::ids::{CHANNELS, RING_FRAMES};
use vstd::prelude::*;

verus! {

/// The place in the ring of channel `c` at sample time `time`.
pub open spec fn place(time: int, c: int) -> int {
    (time % RING_FRAMES as int) * CHANNELS + c
}

/// How many frames after `time` the place `i` is reached first.
pub open spec fn frames_until(time: int, i: int) -> int {
    (i / CHANNELS as int - time) % RING_FRAMES as int
}

/// The last of `frames` frames from `time` on that falls on the place `i`.
pub open spec fn last_frame(time: int, frames: int, i: int) -> int {
    let k = frames_until(time, i);
    k + (frames - 1 - k) / RING_FRAMES as int * RING_FRAMES
}

/// A ring after `samples` have been written from `time` on. Of the frames that
/// fall on one place the last one stays.
pub open spec fn written(ring: Seq<u32>, time: int, samples: Seq<u32>) -> Seq<u32> {
    let frames = samples.len() as int / CHANNELS as int;
    Seq::new(
        ring.len(),
        |i: int|
            if frames_until(time, i) < frames {
                samples[last_frame(time, frames, i) * CHANNELS + i % CHANNELS as int]
            } else {
                ring[i]
            },
    )
}

/// What a read of `frames` frames from `time` on finds in a ring. What has been
/// read is gone, so that of the frames that fall on one place the first finds
/// something and the others find silence.
pub open spec fn found(ring: Seq<u32>, time: int, frames: int) -> Seq<u32> {
    Seq::new(
        (frames * CHANNELS) as nat,
        |j: int|
            if j / (CHANNELS as int) < RING_FRAMES {
                ring[place(time + j / CHANNELS as int, j % CHANNELS as int)]
            } else {
                0
            },
    )
}

/// A ring after `frames` frames have been read from `time` on: they are silent.
pub open spec fn drained(ring: Seq<u32>, time: int, frames: int) -> Seq<u32> {
    Seq::new(
        ring.len(),
        |i: int|
            if frames_until(time, i) < frames {
                0
            } else {
                ring[i]
            },
    )
}

/// A ring that holds nothing but silence.
pub open spec fn silent() -> Seq<u32> {
    Seq::new((RING_FRAMES * CHANNELS) as nat, |i: int| 0)
}

/// The loopback ring buffer.
pub struct Ring {
    samples: Vec<u32>,
}

impl View for Ring {
    type V = Seq<u32>;

    closed spec fn view(&self) -> Seq<u32> {
        self.samples@
    }
}

/// The remainder of a sample time by the length of the ring.
fn ring_start(time: i64) -> (start: usize)
    ensures
        start == time as int % RING_FRAMES as int,
        start < RING_FRAMES,
{
    let r: i64 = time % 16384;
    if r < 0 {
        (r + 16384) as usize
    } else {
        r as usize
    }
}

impl Ring {
    /// Whether the ring has its fixed length.
    pub open spec fn wf(&self) -> bool {
        self@.len() == RING_FRAMES * CHANNELS
    }

    /// A silent ring.
    pub fn new() -> (ring: Ring)
        ensures
            ring.wf(),
            ring@ == silent(),
    {
        let ring = Ring { samples: vec![0u32;32768] };
        assert(ring@ =~= silent());
        ring
    }

    /// Fill the ring with silence.
    pub fn clear(&mut self)
        requires
            old(self).wf(),
        ensures
            final(self).wf(),
            final(self)@ == silent(),
    {
        let n: usize = self.samples.len();
        for i in 0..n
            invariant
                n == self.samples@.len() == RING_FRAMES * CHANNELS,
                forall|j: int| 0 <= j < i ==> self.samples@[j] == 0,
        {
            self.samples[i] = 0;
        }
        assert(self@ =~= silent());
    }

    /// Write `samples`, the first frame at sample time `time`.
    pub fn write(&mut self, time: i64, samples: &[u32])
        requires
            old(self).wf(),
            samples@.len() % CHANNELS as nat == 0,
        ensures
            final(self).wf(),
            final(self)@ == written(old(self)@, time as int, samples@),
    {
        let start: usize = ring_start(time);
        let frames: usize = samples.len() / CHANNELS;
        let mut f: usize = 0;
        let mut at: usize = start;
        assert(self@ =~= written(old(self)@, time as int, samples@.take(0)));
        while f < frames
            invariant
                self.wf(),
                old(self).wf(),
                f <= frames,
                frames == samples@.len() / CHANNELS as nat,
                samples@.len() % CHANNELS as nat == 0,
                at == (time + f) % RING_FRAMES as int,
                self@ == written(old(self)@, time as int, samples@.take(f * CHANNELS)),
            decreases frames - f,
        {
            assert(f * 2 + 1 < samples.len());
            let ghost before = self@;
            self.samples[at * 2] = samples[f * 2];
            self.samples[at * 2 + 1] = samples[f * 2 + 1];
            proof {
                lemma_write_frame(old(self)@, time as int, samples@, f as int);
                assert(self@ =~= before.update(at * 2, samples@[f * 2]).update(
                    at * 2 + 1,
                    samples@[f * 2 + 1],
                ));
            }
            f += 1;
            at = if at + 1 == RING_FRAMES { 0 } else { at + 1 };
        }
        assert(samples@.take(f * CHANNELS) =~= samples@);
    }

    /// Read as many frames as `out` has room for, the first one from sample
    /// time `time`, and leave silence behind.
    pub fn read(&mut self, time: i64, out: &mut [u32])
        requires
            old(self).wf(),
            old(out)@.len() % CHANNELS as nat == 0,
        ensures
            final(self).wf(),
            final(self)@ == drained(
                old(self)@,
                time as int,
                old(out)@.len() as int / CHANNELS as int,
            ),
            final(out)@ == found(
                old(self)@,
                time as int,
                old(out)@.len() as int / CHANNELS as int,
            ),
    {
        let start: usize = ring_start(time);
        let n: usize = out.len();
        let frames: usize = n / CHANNELS;
        let mut f: usize = 0;
        let mut at: usize = start;
        assert(self@ =~= drained(old(self)@, time as int, 0));
        while f < frames
            invariant
                self.wf(),
                old(self).wf(),
                f <= frames,
                n == out@.len() == old(out)@.len(),
                n == frames * CHANNELS,
                at == (time + f) % RING_FRAMES as int,
                self@ == drained(old(self)@, time as int, f as int),
                forall|j: int|
                    0 <= j < f * CHANNELS ==> #[trigger] out@[j] == found(
                        old(self)@,
                        time as int,
                        frames as int,
                    )[j],
            decreases frames - f,
        {
            let ghost before = self@;
            out[f * 2] = self.samples[at * 2];
            self.samples[at * 2] = 0;
            out[f * 2 + 1] = self.samples[at * 2 + 1];
            self.samples[at * 2 + 1] = 0;
            proof {
                lemma_read_frame(old(self)@, time as int, f as int);
                assert(self@ =~= before.update(at * 2, 0).update(at * 2 + 1, 0));
            }
            f += 1;
            at = if at + 1 == RING_FRAMES { 0 } else { at + 1 };
        }
        assert(out@ =~= found(old(self)@, time as int, frames as int));
    }
}

/// One more frame written.
proof fn lemma_write_frame(ring: Seq<u32>, time: int, samples: Seq<u32>, f: int)
    requires
        ring.len() == RING_FRAMES * CHANNELS,
        0 <= f,
        f * CHANNELS + CHANNELS <= samples.len(),
    ensures
        written(ring, time, samples.take((f + 1) * CHANNELS)) == written(
            ring,
            time,
            samples.take(f * CHANNELS),
        ).update(place(time + f, 0), samples[f * CHANNELS]).update(
            place(time + f, 1),
            samples[f * CHANNELS + 1],
        ),
{
    let a = written(ring, time, samples.take((f + 1) * CHANNELS));
    let b = written(ring, time, samples.take(f * CHANNELS)).update(
        place(time + f, 0),
        samples[f * CHANNELS],
    ).update(place(time + f, 1), samples[f * CHANNELS + 1]);
    assert(samples.take((f + 1) * CHANNELS).len() as int / CHANNELS as int == f + 1);
    assert(samples.take(f * CHANNELS).len() as int / CHANNELS as int == f);
    assert forall|i: int| 0 <= i < ring.len() implies a[i] == b[i] by {
        let k = frames_until(time, i);
        assert(0 <= k < RING_FRAMES);
        if i / 2 == (time + f) % RING_FRAMES as int {
            assert(k == f % RING_FRAMES as int);
            assert(last_frame(time, f + 1, i) == f);
        } else {
            assert(k != f % RING_FRAMES as int);
            if k < f {
                assert(last_frame(time, f + 1, i) == last_frame(time, f, i));
                assert(0 <= last_frame(time, f, i) < f);
            }
        }
    }
    assert(a =~= b);
}

/// One more frame read.
proof fn lemma_read_frame(ring: Seq<u32>, time: int, f: int)
    requires
        ring.len() == RING_FRAMES * CHANNELS,
        0 <= f,
    ensures
        drained(ring, time, f + 1) == drained(ring, time, f).update(
            place(time + f, 0),
            0,
        ).update(place(time + f, 1), 0),
        forall|c: int|
            0 <= c < CHANNELS ==> #[trigger] drained(ring, time, f)[place(time + f, c)] == (if f
                < RING_FRAMES {
                ring[place(time + f, c)]
            } else {
                0
            }),
{
    let a = drained(ring, time, f + 1);
    let b = drained(ring, time, f).update(place(time + f, 0), 0).update(place(time + f, 1), 0);
    assert forall|i: int| 0 <= i < ring.len() implies a[i] == b[i] by {
        let k = frames_until(time, i);
        assert(0 <= k < RING_FRAMES);
        if i / 2 == (time + f) % RING_FRAMES as int {
            assert(k == f % RING_FRAMES as int);
        } else {
            assert(k != f % RING_FRAMES as int);
        }
    }
    assert(a =~= b);
    assert forall|c: int| 0 <= c < CHANNELS implies #[trigger] drained(ring, time, f)[place(
        time + f,
        c,
    )] == (if f < RING_FRAMES {
        ring[place(time + f, c)]
    } else {
        0
    }) by {
        assert(frames_until(time, place(time + f, c)) == f % RING_FRAMES as int);
    }
}

/// What the output wrote, the input reads back: a write of no more frames than
/// the ring holds, then a read of as many from the same sample time.
pub proof fn law_read_gives_back_what_was_written(ring: Seq<u32>, time: int, samples: Seq<u32>)
    requires
        ring.len() == RING_FRAMES * CHANNELS,
        samples.len() % CHANNELS as nat == 0,
        samples.len() <= RING_FRAMES * CHANNELS,
    ensures
        found(written(ring, time, samples), time, samples.len() as int / CHANNELS as int)
            == samples,
{
    let frames = samples.len() as int / CHANNELS as int;
    let w = written(ring, time, samples);
    let got = found(w, time, frames);
    assert forall|j: int| 0 <= j < samples.len() implies got[j] == samples[j] by {
        let f = j / 2;
        let i = place(time + f, j % 2);
        assert(frames_until(time, i) == f);
        assert(last_frame(time, frames, i) == f);
        assert(i % 2 == j % 2);
    }
    assert(got =~= samples);
}

/// A stopped output yields silence instead of a stale loop: what has been read
/// once is silent when it is read again.
pub proof fn law_second_read_is_silent(ring: Seq<u32>, time: int, frames: int)
    requires
        ring.len() == RING_FRAMES * CHANNELS,
        0 <= frames,
    ensures
        forall|j: int|
            0 <= j < frames * CHANNELS ==> #[trigger] found(
                drained(ring, time, frames),
                time,
                frames,
            )[j] == 0,
{
    assert forall|j: int| 0 <= j < frames * CHANNELS implies #[trigger] found(
        drained(ring, time, frames),
        time,
        frames,
    )[j] == 0 by {
        if j / 2 < RING_FRAMES {
            assert(frames_until(time, place(time + j / 2, j % 2)) == j / 2);
        }
    }
}

/// A write leaves alone what it does not reach: a frame at another sample time
/// that shares no place with the frames written.
pub proof fn law_write_leaves_other_frames(
    ring: Seq<u32>,
    time: int,
    samples: Seq<u32>,
    other: int,
    c: int,
)
    requires
        ring.len() == RING_FRAMES * CHANNELS,
        0 <= c < CHANNELS,
        (other - time) % RING_FRAMES as int >= samples.len() as int / CHANNELS as int,
    ensures
        written(ring, time, samples)[place(other, c)] == ring[place(other, c)],
{
    assert(frames_until(time, place(other, c)) == (other - time) % RING_FRAMES as int);
}

/// Whatever part of a write the ring still holds, the input reads back as it
/// was: `m` frames from frame number `k` on, where `k` is among the last 16384
/// that were written.
#[verifier::spinoff_prover]
pub proof fn law_any_part_reads_back(ring: Seq<u32>, time: int, samples: Seq<u32>, k: int, m: int)
    requires
        ring.len() == 32768,
        samples.len() % 2 == 0,
        0 <= k,
        0 <= m,
        k + m <= samples.len() as int / 2,
        samples.len() as int / 2 - k <= 16384,
    ensures
        found(written(ring, time, samples), time + k, m) == samples.subrange(2 * k, 2 * (k + m)),
{
    let frames = samples.len() as int / 2;
    let w = written(ring, time, samples);
    let got = found(w, time + k, m);
    let part = samples.subrange(2 * k, 2 * (k + m));
    assert forall|j: int| 0 <= j < 2 * m implies got[j] == part[j] by {
        let f = k + j / 2;
        let i = place(time + f, j % 2);
        assert(time + k + j / 2 == time + f);
        lemma_frame_at(time, frames, f, j % 2);
        assert(got[j] == w[i]);
        assert(w[i] == samples[f * 2 + j % 2]);
        assert(part[j] == samples[2 * k + j]);
    }
    assert(got =~= part);
}

/// Frame number `f` of those written falls on its place, and stays there if it
/// is among the last 16384.
#[verifier::spinoff_prover]
proof fn lemma_frame_at(time: int, frames: int, f: int, c: int)
    requires
        0 <= f < frames,
        frames - f <= 16384,
        0 <= c < 2,
    ensures
        0 <= place(time + f, c) < 32768,
        place(time + f, c) % 2 == c,
        frames_until(time, place(time + f, c)) == f % 16384,
        frames_until(time, place(time + f, c)) < frames,
        last_frame(time, frames, place(time + f, c)) == f,
{
    let i = place(time + f, c);
    let r = (time + f) % 16384;
    assert(i == r * 2 + c);
    assert(i / 2 == r);
    let first = f % 16384;
    assert((r - time) % 16384 == first);
    let q = f / 16384;
    assert(f == q * 16384 + first);
    assert((frames - 1 - first) / 16384 == q);
}

/// What a write or a read does not reach stays as it was: a frame at another
/// sample time that shares no place with the frames written or read is found
/// as before.
pub proof fn law_other_frames_are_left_alone(
    ring: Seq<u32>,
    time: int,
    samples: Seq<u32>,
    frames: int,
    other: int,
)
    requires
        ring.len() == 32768,
        samples.len() % 2 == 0,
    ensures
        (other - time) % 16384 >= samples.len() as int / 2 ==> found(
            written(ring, time, samples),
            other,
            1,
        ) == found(ring, other, 1),
        (other - time) % 16384 >= frames ==> found(drained(ring, time, frames), other, 1) == found(
            ring,
            other,
            1,
        ),
{
    let a = found(ring, other, 1);
    let b = found(written(ring, time, samples), other, 1);
    let c = found(drained(ring, time, frames), other, 1);
    assert(frames_until(time, place(other, 0)) == (other - time) % 16384);
    assert(frames_until(time, place(other, 1)) == (other - time) % 16384);
    assert(0 <= place(other, 0) < 32768 && 0 <= place(other, 1) < 32768);
    if (other - time) % 16384 >= samples.len() as int / 2 {
        assert(b =~= a);
    }
    if (other - time) % 16384 >= frames {
        assert(c =~= a);
    }
}

/// From a ring that has been cleared nothing but silence is read.
pub proof fn law_cleared_ring_is_silent(time: int, frames: int, j: int)
    requires
        0 <= j < 2 * frames,
    ensures
        silent().len() == 32768,
        found(silent(), time, frames).len() == 2 * frames,
        found(silent(), time, frames)[j] == 0,
{
}

} // verus!
