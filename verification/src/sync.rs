//! Multiroom synchronization engine.
//!
//! Goal: every connected player renders the *same* absolute audio sample at the
//! same wall-clock instant, and stays that way despite each device running on
//! its own crystal. The mechanism is:
//!
//! 1. **Clock offset** - periodically send `strm 't'`; the player answers with a
//!    `STMt` carrying its clock (`jiffies`) and echoing our timestamp. That's an
//!    NTP-style round trip: `offset = (S0+S1)/2 - jiffies`, kept from the
//!    lowest-RTT probe so network jitter doesn't poison it.
//!
//! 2. **Absolute playhead** - the player reports `elapsed_ms` (audio played
//!    since its HTTP stream began). We recorded the absolute byte position of
//!    the live write head when it connected (`b_start`), so its absolute content
//!    position is `H = b_start/bytes_per_ms + elapsed_ms`. Its sync **anchor**
//!    is `Epoch = (jiffies + offset) - H` - the server-clock time at which it
//!    would have played content position 0. Equal anchors == perfectly aligned.
//!    An anchor is kept as an exact fraction of a millisecond, whose
//!    denominator (the scale) is the byte rate of the stream.
//!
//! 3. **Correction** - the most-*delayed* player (maximum `Epoch`) is the
//!    reference; every other player is *ahead* of it by `refEpoch - Epoch` ms
//!    and is told to `strm 'p'` (timed pause) for that long. See
//!    [`crate::align`].
//!
//! Why pause-the-leaders instead of skip-the-laggards: for a *live* stream the
//! most-advanced player is by definition the one rendering closest to the live
//! write head, i.e. the one with the least audio buffered. Skipping the others
//! forward (`strm 'a'`) would drain their buffers down to the leader's - near
//! zero - so any WiFi hiccup underruns them, they fall behind, get skipped
//! again, and the group stutters forever instead of locking. Aligning to the
//! laggard costs a little end-to-end latency and buys every player the
//! laggard's safety margin.
//!
//! The one place skip-ahead (`strm 'a'`) *is* used: a player parked far behind
//! the group after an output stall. Its stream kept flowing while its output
//! froze, so the missing audio is sitting in its buffer - skipping is exactly
//! draining that surplus, and is self-limiting for a player whose data really
//! is late (it skips only what it has). Pauses can only fix ahead-players;
//! without this path a stalled player stays seconds behind forever.

use crate::align::{decide_corrections, decided, elapsed_ms, Correction, Snapshot};
use crate::align::{correction_of, epochs_bounded, has_stable, is_stable};
use crate::align::{lemma_corrections_apart, lemma_corrections_members, reference, same_stable};
use crate::audio::AudioFormat;
use std::collections::HashMap;
use vstd::prelude::*;

verus! {

broadcast use vstd::std_specs::hash::group_hash_axioms;

/// A player must have been playing at least this long before it's eligible, so
/// `elapsed_ms` is meaningful and its output pipeline has settled.
pub const MIN_ELAPSED_MS: u32 = 2000;

/// How many recent probes to keep per player for min-RTT offset selection.
pub const PROBE_WINDOW: usize = 8;

/// Ignore a player whose last report is older than this - a half-dead session
/// (e.g. a reconnect's abandoned predecessor) must not anchor the group.
pub const STALE_MS: u32 = 5000;

/// A player whose anchor moves faster than this is mid-stall or mid-correction,
/// not a steady room: a stalled player's `elapsed` freezes so its anchor
/// recedes at ~1000 ms/s, and a receding anchor must never be the group
/// reference - chasing it pauses every healthy player over and over. Healthy
/// playback moves the anchor at ppm rates; measurement jitter adds a few ms/s.
pub const STABLE_MAX_VEL_MS_PER_S: i128 = 100;

/// Anchor velocity is measured over at least this long.
pub const MIN_VELOCITY_SPAN_MS: u32 = 250;

/// An `elapsed_ms` below this after a stream (re)start is taken as the fresh
/// stream's counter (which starts from 0); anything larger is a stale report
/// from the previous stream and is ignored.
pub const FRESH_STREAM_MAX_ELAPSED_MS: u32 = 10000;

/// No byte rate is larger than this.
pub const MAX_SCALE: u64 = 0x4000_0000_0000;

/// One answered timing probe.
#[derive(Clone, Copy, Debug, PartialEq, Eq, Structural)]
pub struct Probe {
    pub rtt: u32,
    /// Server clock minus player clock, in ms.
    pub offset: i64,
}

/// How fast an anchor is moving: by `moved/scale` ms over `over_ms` ms.
#[derive(Clone, Copy, Debug, PartialEq, Eq, Structural)]
pub struct Velocity {
    pub moved: i128,
    pub over_ms: u32,
}

/// What is known of a player's timing.
pub struct PlayerModel {
    pub mac: Seq<char>,
    pub name: Seq<char>,
    pub probes: Seq<Probe>,
    pub offset_ms: Option<i64>,
    pub b_start_bytes: Option<u64>,
    pub last_jiffies: u32,
    pub last_elapsed: u32,
    pub last_correction_ms: u32,
    pub last_report_ms: u32,
    pub last_epoch_sample: Option<(i128, u32)>,
    pub epoch_vel: Velocity,
    pub awaiting_fresh_stream: bool,
}

/// The number of the probe with the lowest round-trip time, the earliest of
/// several.
pub open spec fn best_probe(probes: Seq<Probe>) -> int
    decreases probes.len(),
{
    if probes.len() <= 1 {
        0
    } else {
        let before = best_probe(probes.drop_last());
        if probes.last().rtt < probes[before].rtt {
            probes.len() - 1
        } else {
            before
        }
    }
}

/// The probe that a report arriving at `recv_ms` completes: sent at
/// `server_ts`, answered by a player whose clock read `jiffies`.
pub open spec fn probe_of(jiffies: u32, server_ts: u32, recv_ms: u32) -> Probe {
    let rtt = elapsed_ms(recv_ms, server_ts);
    let midpoint = (server_ts + rtt / 2) % 0x1_0000_0000;
    Probe { rtt: rtt as u32, offset: (midpoint - jiffies) as i64 }
}

/// The most recent probes, with one more.
pub open spec fn probe_window(probes: Seq<Probe>, probe: Probe) -> Seq<Probe> {
    let all = probes.push(probe);
    if all.len() > PROBE_WINDOW {
        all.drop_first()
    } else {
        all
    }
}

impl PlayerModel {
    /// A session that has just said HELO.
    pub open spec fn fresh(mac: Seq<char>, name: Seq<char>) -> PlayerModel {
        PlayerModel {
            mac,
            name,
            probes: Seq::empty(),
            offset_ms: None,
            b_start_bytes: None,
            last_jiffies: 0,
            last_elapsed: 0,
            last_correction_ms: 0,
            last_report_ms: 0,
            last_epoch_sample: None,
            epoch_vel: Velocity { moved: 0, over_ms: 1 },
            awaiting_fresh_stream: true,
        }
    }

    /// The player's sync anchor in `1/scale` ms, if it has everything needed to
    /// compute one: `jiffies + offset - elapsed - b_start*1000/scale` ms.
    pub open spec fn epoch(self, scale: int) -> Option<int> {
        match (self.offset_ms, self.b_start_bytes) {
            (Some(offset), Some(b_start)) => if self.last_elapsed < MIN_ELAPSED_MS {
                None
            } else {
                Some((self.last_jiffies + offset - self.last_elapsed) * scale - 1000 * b_start)
            },
            _ => None,
        }
    }

    /// The player's clock in server time, in `1/scale` ms.
    pub open spec fn server_time(self, scale: int) -> int {
        (self.last_jiffies + self.offset_ms->0) * scale
    }

    /// The content position the player reports, in `1/scale` ms.
    pub open spec fn content(self, scale: int) -> int {
        1000 * self.b_start_bytes->0 + self.last_elapsed * scale
    }

    /// Whether the anchor moves no faster than a steady room's.
    pub open spec fn steady(self, scale: int) -> bool {
        let limit = STABLE_MAX_VEL_MS_PER_S * self.epoch_vel.over_ms * scale;
        -limit <= 1000 * self.epoch_vel.moved <= limit
    }

    /// The HTTP stream attached at byte `b_start`.
    pub open spec fn attached(self, b_start: u64) -> PlayerModel {
        PlayerModel { b_start_bytes: Some(b_start), last_epoch_sample: None, ..self }
    }

    /// The HTTP stream dropped.
    pub open spec fn detached(self) -> PlayerModel {
        PlayerModel {
            b_start_bytes: None,
            last_elapsed: 0,
            last_epoch_sample: None,
            epoch_vel: Velocity { moved: 0, over_ms: 1 },
            awaiting_fresh_stream: true,
            ..self
        }
    }

    /// `bytes` of the stream never reached the player.
    pub open spec fn shifted(self, bytes: u64) -> PlayerModel {
        match self.b_start_bytes {
            Some(b) => PlayerModel {
                b_start_bytes: Some((b + bytes) as u64),
                last_epoch_sample: None,
                ..self
            },
            None => self,
        }
    }

    /// A correction was sent at `now`.
    pub open spec fn corrected(self, now: u32) -> PlayerModel {
        PlayerModel { last_correction_ms: now, ..self }
    }

    /// The clock and the playback counter of a report are taken over; right
    /// after a stream (re)start, a counter that is too large for the fresh
    /// stream is not.
    pub open spec fn heard(self, jiffies: u32, elapsed: u32, recv_ms: u32) -> PlayerModel {
        let fits = !self.awaiting_fresh_stream || elapsed < FRESH_STREAM_MAX_ELAPSED_MS;
        PlayerModel {
            last_jiffies: jiffies,
            last_report_ms: recv_ms,
            last_elapsed: if fits { elapsed } else { self.last_elapsed },
            awaiting_fresh_stream: !fits,
            ..self
        }
    }

    /// A report that echoes a probe's timestamp (one other than 0) completes
    /// that probe.
    pub open spec fn probed(self, jiffies: u32, server_ts: u32, recv_ms: u32) -> PlayerModel {
        if server_ts == 0 {
            self
        } else {
            let probes = probe_window(self.probes, probe_of(jiffies, server_ts, recv_ms));
            PlayerModel {
                probes,
                offset_ms: Some(probes[best_probe(probes)].offset),
                ..self
            }
        }
    }

    /// The anchor is sampled, and its velocity taken from the sample before.
    pub open spec fn sampled(self, scale: int, recv_ms: u32) -> PlayerModel {
        match (self.epoch(scale), self.last_epoch_sample) {
            (None, _) => self,
            (Some(e), None) => PlayerModel {
                last_epoch_sample: Some((e as i128, recv_ms)),
                ..self
            },
            (Some(e), Some((prev, prev_ms))) => {
                let span = elapsed_ms(recv_ms, prev_ms);
                if span < MIN_VELOCITY_SPAN_MS {
                    self
                } else {
                    PlayerModel {
                        epoch_vel: Velocity { moved: (e - prev) as i128, over_ms: span as u32 },
                        last_epoch_sample: Some((e as i128, recv_ms)),
                        ..self
                    }
                }
            },
        }
    }

    /// A `STMt` report came in.
    pub open spec fn reported(
        self,
        scale: int,
        jiffies: u32,
        elapsed: u32,
        server_ts: u32,
        recv_ms: u32,
    ) -> PlayerModel {
        self.heard(jiffies, elapsed, recv_ms).probed(jiffies, server_ts, recv_ms).sampled(
            scale,
            recv_ms,
        )
    }

    /// The player's part in an alignment round at `now`: none without an
    /// anchor, or where its last report is stale.
    pub open spec fn snapshot(self, sid: u64, scale: int, now: u32) -> Option<Snapshot> {
        match self.epoch(scale) {
            Some(epoch) => if elapsed_ms(now, self.last_report_ms) <= STALE_MS {
                Some(
                    Snapshot {
                        sid,
                        epoch: epoch as i128,
                        stable: self.steady(scale),
                        last_correction_ms: self.last_correction_ms,
                    },
                )
            } else {
                None
            },
            None => None,
        }
    }

    /// The measurements are within the ranges that 32-bit clocks give.
    pub open spec fn wf(self) -> bool {
        &&& self.probes.len() <= PROBE_WINDOW
        &&& forall|i: int|
            0 <= i < self.probes.len() ==> -0x1_0000_0000 <= (#[trigger] self.probes[i]).offset
                <= 0x1_0000_0000
        &&& self.offset_ms matches Some(o) ==> -0x1_0000_0000 <= o <= 0x1_0000_0000
        &&& self.last_epoch_sample matches Some((e, _)) ==> -EPOCH_REACH <= e <= EPOCH_REACH
        &&& -2 * EPOCH_REACH <= self.epoch_vel.moved <= 2 * EPOCH_REACH
    }
}

/// No anchor that comes of 32-bit clocks and 64-bit positions is further from
/// 0 than this.
pub const EPOCH_REACH: i128 = 0x1_0000_0000_0000_0000_0000;

struct Player {
    mac: String,
    name: String,
    probes: Vec<Probe>,
    offset_ms: Option<i64>,
    /// Absolute byte position of the live head when this player's HTTP
    /// connection subscribed (`None` until the HTTP stream attaches). Advanced
    /// by any bytes the broadcast buffer later drops for this reader, so it
    /// always maps `elapsed_ms` to the true content position.
    b_start_bytes: Option<u64>,
    last_jiffies: u32,
    last_elapsed: u32,
    last_correction_ms: u32,
    /// Server clock when the last STMt arrived, for staleness gating.
    last_report_ms: u32,
    /// Previous (epoch, report time) sample, for anchor-velocity estimation.
    last_epoch_sample: Option<(i128, u32)>,
    /// How fast this player's anchor is moving.
    epoch_vel: Velocity,
    /// True from (re)starting the player's stream until the first STMt that is
    /// plausibly measured on the fresh stream. Squeezelite can emit one more
    /// report computed against the *old* stream right after a restart; pairing
    /// that stale `elapsed_ms` with the new anchor would fabricate a huge error.
    awaiting_fresh_stream: bool,
}

impl View for Player {
    type V = PlayerModel;

    closed spec fn view(&self) -> PlayerModel {
        PlayerModel {
            mac: self.mac@,
            name: self.name@,
            probes: self.probes@,
            offset_ms: self.offset_ms,
            b_start_bytes: self.b_start_bytes,
            last_jiffies: self.last_jiffies,
            last_elapsed: self.last_elapsed,
            last_correction_ms: self.last_correction_ms,
            last_report_ms: self.last_report_ms,
            last_epoch_sample: self.last_epoch_sample,
            epoch_vel: self.epoch_vel,
            awaiting_fresh_stream: self.awaiting_fresh_stream,
        }
    }
}

/// An anchor stays within [`EPOCH_REACH`].
proof fn lemma_epoch_reach(base: int, b_start: int, scale: int)
    requires
        -0x2_0000_0000 <= base <= 0x2_0000_0000,
        0 <= b_start <= u64::MAX,
        0 < scale <= MAX_SCALE,
    ensures
        -EPOCH_REACH <= base * scale - 1000 * b_start <= EPOCH_REACH,
        -EPOCH_REACH <= base * scale <= EPOCH_REACH,
{
    assert(-0x2_0000_0000 * 0x4000_0000_0000 <= base * scale <= 0x2_0000_0000 * 0x4000_0000_0000)
        by (nonlinear_arith)
        requires
            -0x2_0000_0000 <= base <= 0x2_0000_0000,
            0 < scale <= 0x4000_0000_0000,
    ;
}

/// The best probe is one of the probes, and none has a lower round-trip time.
pub proof fn law_offset_is_from_the_quickest_probe(probes: Seq<Probe>, j: int)
    requires
        0 <= j < probes.len(),
    ensures
        0 <= best_probe(probes) < probes.len(),
        probes[best_probe(probes)].rtt <= probes[j].rtt,
    decreases probes.len(),
{
    if probes.len() > 1 {
        let front = probes.drop_last();
        if j < front.len() {
            law_offset_is_from_the_quickest_probe(front, j);
            assert(front[j] == probes[j]);
        } else {
            law_offset_is_from_the_quickest_probe(front, 0);
        }
        assert(front[best_probe(front)] == probes[best_probe(front)]);
    }
}

/// The offset of the probe with the lowest round-trip time.
fn best_offset(probes: &Vec<Probe>) -> (offset: i64)
    requires
        probes@.len() > 0,
    ensures
        offset == probes@[best_probe(probes@)].offset,
{
    let mut best: usize = 0;
    let mut i: usize = 1;
    assert(probes@.take(1).len() == 1);
    while i < probes.len()
        invariant
            1 <= i <= probes@.len(),
            best < i,
            best == best_probe(probes@.take(i as int)),
        decreases probes@.len() - i,
    {
        assert(probes@.take(i + 1).drop_last() =~= probes@.take(i as int));
        if probes[i].rtt < probes[best].rtt {
            best = i;
        }
        i += 1;
    }
    assert(probes@.take(i as int) =~= probes@);
    probes[best].offset
}

impl Player {
    /// The player's sync anchor, if it has everything needed to compute one.
    fn epoch(&self, scale: u64) -> (epoch: Option<i128>)
        requires
            self@.wf(),
            0 < scale <= MAX_SCALE,
        ensures
            match epoch {
                Some(e) => self@.epoch(scale as int) == Some(e as int) && -EPOCH_REACH <= e
                    <= EPOCH_REACH,
                None => self@.epoch(scale as int) is None,
            },
    {
        let offset: i64 = match self.offset_ms {
            Some(o) => o,
            None => return None,
        };
        let b_start: u64 = match self.b_start_bytes {
            Some(b) => b,
            None => return None,
        };
        if self.last_elapsed < MIN_ELAPSED_MS {
            return None;  // not playing steadily yet
        }
        let base: i128 = self.last_jiffies as i128 + offset as i128 - self.last_elapsed as i128;
        proof {
            lemma_epoch_reach(base as int, b_start as int, scale as int);
        }
        Some(base * scale as i128 - 1000 * b_start as i128)
    }

    /// Whether the anchor moves no faster than a steady room's.
    fn steady(&self, scale: u64) -> (steady: bool)
        requires
            self@.wf(),
            0 < scale <= MAX_SCALE,
        ensures
            steady == self@.steady(scale as int),
    {
        let over: i128 = STABLE_MAX_VEL_MS_PER_S * self.epoch_vel.over_ms as i128;
        assert(0 <= over * scale <= 100 * 0x1_0000_0000 * 0x4000_0000_0000) by (nonlinear_arith)
            requires
                0 <= over <= 100 * 0x1_0000_0000,
                0 < scale <= 0x4000_0000_0000,
        ;
        let limit: i128 = over * scale as i128;
        let moved: i128 = 1000 * self.epoch_vel.moved;
        -limit <= moved && moved <= limit
    }

    /// Take over the clock and the playback counter of a report.
    fn hear(&mut self, jiffies: u32, elapsed: u32, recv_ms: u32)
        requires
            old(self)@.wf(),
        ensures
            final(self)@.wf(),
            final(self)@ == old(self)@.heard(jiffies, elapsed, recv_ms),
    {
        self.last_jiffies = jiffies;
        self.last_report_ms = recv_ms;
        if self.awaiting_fresh_stream {
            // Only a young counter can belong to the just-started stream; a
            // large one is a leftover report against the previous stream.
            if elapsed < FRESH_STREAM_MAX_ELAPSED_MS {
                self.awaiting_fresh_stream = false;
                self.last_elapsed = elapsed;
            }
        } else {
            self.last_elapsed = elapsed;
        }
    }

    /// Complete the probe that a report answers.
    fn complete_probe(&mut self, jiffies: u32, server_ts: u32, recv_ms: u32)
        requires
            old(self)@.wf(),
        ensures
            final(self)@.wf(),
            final(self)@ == old(self)@.probed(jiffies, server_ts, recv_ms),
    {
        // A non-zero echo means this STMt answers one of our `strm 't'` probes.
        if server_ts == 0 {
            return;
        }
        let rtt: u32 = recv_ms.wrapping_sub(server_ts);
        // Midpoint of send/recv in server time, minus the player's clock.
        let midpoint: i64 = server_ts.wrapping_add(rtt / 2) as i64;
        let offset: i64 = midpoint - jiffies as i64;
        let probe = Probe { rtt, offset };
        assert(probe == probe_of(jiffies, server_ts, recv_ms));
        self.probes.push(probe);
        if self.probes.len() > PROBE_WINDOW {
            let _ = self.probes.remove(0);
        }
        assert(self.probes@ =~= probe_window(old(self)@.probes, probe));
        // Best estimate = the offset from the lowest-RTT probe.
        proof {
            law_offset_is_from_the_quickest_probe(self.probes@, 0);
        }
        self.offset_ms = Some(best_offset(&self.probes));
    }

    /// Anchor velocity from this player's own successive reports: ~0 for steady
    /// playback, ~1000 ms/s while stalled (elapsed frozen, clock not).
    fn sample(&mut self, scale: u64, recv_ms: u32)
        requires
            old(self)@.wf(),
            0 < scale <= MAX_SCALE,
        ensures
            final(self)@.wf(),
            final(self)@ == old(self)@.sampled(scale as int, recv_ms),
    {
        match self.epoch(scale) {
            Some(epoch) => match self.last_epoch_sample {
                Some((prev_epoch, prev_ms)) => {
                    let span: u32 = recv_ms.wrapping_sub(prev_ms);
                    if span >= MIN_VELOCITY_SPAN_MS {
                        self.epoch_vel = Velocity { moved: epoch - prev_epoch, over_ms: span };
                        self.last_epoch_sample = Some((epoch, recv_ms));
                    }
                },
                None => {
                    self.last_epoch_sample = Some((epoch, recv_ms));
                },
            },
            None => {},
        }
    }

    /// Take in a `STMt` report.
    fn report(&mut self, scale: u64, jiffies: u32, elapsed: u32, server_ts: u32, recv_ms: u32)
        requires
            old(self)@.wf(),
            0 < scale <= MAX_SCALE,
        ensures
            final(self)@.wf(),
            final(self)@ == old(self)@.reported(
                scale as int,
                jiffies,
                elapsed,
                server_ts,
                recv_ms,
            ),
    {
        self.hear(jiffies, elapsed, recv_ms);
        self.complete_probe(jiffies, server_ts, recv_ms);
        self.sample(scale, recv_ms);
    }
}

/// Whether a correction was sent to session `sid`.
pub open spec fn reached(out: Seq<Correction>, sent: Seq<bool>, sid: u64) -> bool {
    exists|i: int| 0 <= i < out.len() && sent[i] && (#[trigger] out[i]).sid == sid
}

/// What the sync engine stands for: the players by session id.
pub struct SyncModel {
    pub players: Map<u64, PlayerModel>,
    /// Bytes per second of the stream.
    pub scale: int,
    pub enabled: bool,
}

impl SyncModel {
    /// One session's player becomes `player`; every other stays as it is.
    pub open spec fn with(self, sid: u64, player: PlayerModel) -> SyncModel {
        SyncModel { players: self.players.insert(sid, player), ..self }
    }

    /// The part that session `sid` has in an alignment round at `now`.
    pub open spec fn snapshot(self, sid: u64, now: u32) -> Option<Snapshot> {
        if self.players.contains_key(sid) {
            self.players[sid].snapshot(sid, self.scale, now)
        } else {
            None
        }
    }

    /// The stream origin of session `sid`, if its HTTP stream is attached.
    pub open spec fn start_of(self, sid: u64) -> Option<u64> {
        if self.players.contains_key(sid) {
            self.players[sid].b_start_bytes
        } else {
            None
        }
    }

    /// Whether `snaps` lists the eligible players at `now`, each once, in some
    /// order.
    pub open spec fn is_lineup(self, snaps: Seq<Snapshot>, now: u32) -> bool {
        &&& forall|i: int|
            0 <= i < snaps.len() ==> self.snapshot((#[trigger] snaps[i]).sid, now) == Some(
                snaps[i],
            )
        &&& forall|sid: u64|
            (#[trigger] self.snapshot(sid, now)) is Some ==> exists|i: int|
                0 <= i < snaps.len() && (#[trigger] snaps[i]).sid == sid
        &&& forall|i: int, j: int|
            0 <= i < j < snaps.len() ==> (#[trigger] snaps[i]).sid != (#[trigger] snaps[j]).sid
    }

    /// Whether `out` is what an alignment round at `now` decides.
    pub open spec fn round(self, now: u32, out: Seq<Correction>) -> bool {
        exists|snaps: Seq<Snapshot>| #[trigger]
            self.is_lineup(snaps, now) && out == decided(snaps, self.scale, now)
    }

    /// The sync engine after corrections decided at `now` were tried: exactly
    /// the players that one was sent to begin their cooldown.
    pub open spec fn tried(self, now: u32, out: Seq<Correction>, sent: Seq<bool>) -> SyncModel {
        SyncModel {
            players: self.players.map_entries(
                |sid: u64, p: PlayerModel|
                    if reached(out, sent, sid) {
                        p.corrected(now)
                    } else {
                        p
                    },
            ),
            ..self
        }
    }

    /// Whether a `STMt` report leads from here to `after`, and at `now` to the
    /// corrections `out`.
    pub open spec fn answered(
        self,
        sid: u64,
        jiffies: u32,
        elapsed: u32,
        server_ts: u32,
        recv_ms: u32,
        after: SyncModel,
        now: u32,
        out: Seq<Correction>,
    ) -> bool {
        if self.players.contains_key(sid) {
            &&& after == self.with(
                sid,
                self.players[sid].reported(self.scale, jiffies, elapsed, server_ts, recv_ms),
            )
            &&& self.enabled ==> after.round(now, out)
            &&& !self.enabled ==> out.len() == 0
        } else {
            after == self && out.len() == 0
        }
    }

    /// Every player's measurements are in range.
    pub open spec fn wf(self) -> bool {
        &&& 0 < self.scale <= MAX_SCALE
        &&& forall|sid: u64|
            self.players.contains_key(sid) ==> (#[trigger] self.players[sid]).wf()
    }
}

/// The corrections to send, and the server clock when they were decided.
pub struct Round {
    pub now: u32,
    pub corrections: Vec<Correction>,
}

/// Registry of players plus the correction logic.
///
/// Keyed by a per-connection **session id** (not the MAC): two squeezelite
/// instances sharing a MAC, or a reconnecting player racing its own half-dead
/// old session, must never write into each other's timing state - interleaved
/// reports fabricate an ever-receding phantom laggard that the whole group
/// then chases with endless pauses.
pub struct SyncManager {
    players: HashMap<u64, Player>,
    /// Bytes per second of the stream.
    scale: u64,
    enabled: bool,
}

impl View for SyncManager {
    type V = SyncModel;

    closed spec fn view(&self) -> SyncModel {
        SyncModel {
            players: self.players@.map_values(|p: Player| p@),
            scale: self.scale as int,
            enabled: self.enabled,
        }
    }
}

impl SyncManager {
    /// An engine without players, for a stream of the given format.
    pub fn new(format: AudioFormat, enabled: bool) -> (manager: Self)
        requires
            format.bytes_per_second() > 0,
        ensures
            manager@.wf(),
            manager@.players == Map::<u64, PlayerModel>::empty(),
            manager@.scale == format.bytes_per_second(),
            manager@.enabled == enabled,
    {
        let frame: u64 = format.frame_bytes() as u64;
        assert(frame * format.sample_rate <= 7905 * 0x1_0000_0000) by (nonlinear_arith)
            requires
                frame <= 7905,
                format.sample_rate < 0x1_0000_0000,
        ;
        let manager = SyncManager {
            players: HashMap::new(),
            scale: frame * format.sample_rate as u64,
            enabled,
        };
        assert(manager@.players =~= Map::<u64, PlayerModel>::empty());
        manager
    }

    /// Whether any session uses the given MAC.
    fn mac_in_use(&self, mac: &String) -> (used: bool)
        ensures
            used == exists|sid: u64|
                self@.players.contains_key(sid) && (#[trigger] self@.players[sid]).mac == mac@,
    {
        for kv in it: self.players.iter()
            invariant
                forall|i: int| 0 <= i < it.index() ==> (#[trigger] it.seq()[i]).1.mac@ != mac@,
        {
            if kv.1.mac == *mac {
                assert(self@.players.contains_key(*kv.0));
                assert(self@.players[*kv.0].mac == mac@);
                return true;
            }
        }
        false
    }

    /// Register a player session at HELO time. `sid` is the unique id of this
    /// SlimProto connection; it is embedded in the HTTP request URL so the
    /// HTTP side can correlate the two connections. Tells whether another
    /// session already uses the MAC (a reconnect in progress, or two players
    /// sharing a MAC).
    pub fn add_player(&mut self, sid: u64, mac: String, name: String) -> (shared: bool)
        requires
            old(self)@.wf(),
        ensures
            final(self)@.wf(),
            final(self)@ == old(self)@.with(sid, PlayerModel::fresh(mac@, name@)),
            shared == exists|other: u64|
                old(self)@.players.contains_key(other) && (
                #[trigger] old(self)@.players[other]).mac == mac@,
            final(self)@.players.contains_key(sid),
            final(self)@.start_of(sid) is None,
    {
        let shared: bool = self.mac_in_use(&mac);
        let player = Player {
            mac,
            name,
            probes: Vec::new(),
            offset_ms: None,
            b_start_bytes: None,
            last_jiffies: 0,
            last_elapsed: 0,
            last_correction_ms: 0,
            last_report_ms: 0,
            last_epoch_sample: None,
            epoch_vel: Velocity { moved: 0, over_ms: 1 },
            awaiting_fresh_stream: true,
        };
        assert(player@ == PlayerModel::fresh(mac@, name@));
        self.players.insert(sid, player);
        assert(self@.players =~= old(self)@.players.insert(sid, player@));
        shared
    }

    /// Forget a session.
    pub fn remove_player(&mut self, sid: u64)
        requires
            old(self)@.wf(),
        ensures
            final(self)@.wf(),
            final(self)@ == (SyncModel {
                players: old(self)@.players.remove(sid),
                ..old(self)@
            }),
            !final(self)@.players.contains_key(sid),
            forall|other: u64|
                other != sid && old(self)@.players.contains_key(other) ==>
                    final(self)@.players.contains_key(other)
                    && #[trigger] final(self)@.players[other] == old(self)@.players[other],
    {
        self.players.remove(&sid);
        assert(self@.players =~= old(self)@.players.remove(sid));
    }

    /// Record where in the global stream this player's HTTP playback begins.
    pub fn set_http_start(&mut self, sid: u64, b_start_bytes: u64)
        requires
            old(self)@.wf(),
        ensures
            final(self)@.wf(),
            final(self)@ == if old(self)@.players.contains_key(sid) {
                old(self)@.with(sid, old(self)@.players[sid].attached(b_start_bytes))
            } else {
                old(self)@
            },
            old(self)@.players.contains_key(sid) ==> final(self)@.start_of(sid) == Some(
                b_start_bytes,
            ),
    {
        if let Some(mut p) = self.players.remove(&sid) {
            p.b_start_bytes = Some(b_start_bytes);
            p.last_epoch_sample = None;  // anchor moved; old velocity meaningless
            self.players.insert(sid, p);
            assert(self@.players =~= old(self)@.players.insert(sid, p@));
        } else {
            assert(self@.players =~= old(self)@.players);
        }
    }

    /// The player's HTTP stream dropped (`DSCO`). Forget its anchor - and treat
    /// it as not playing - until a fresh stream attaches and re-anchors it.
    pub fn clear_http_start(&mut self, sid: u64)
        requires
            old(self)@.wf(),
        ensures
            final(self)@.wf(),
            final(self)@ == if old(self)@.players.contains_key(sid) {
                old(self)@.with(sid, old(self)@.players[sid].detached())
            } else {
                old(self)@
            },
            final(self)@.start_of(sid) is None,
    {
        if let Some(mut p) = self.players.remove(&sid) {
            p.b_start_bytes = None;
            p.last_elapsed = 0;
            p.last_epoch_sample = None;
            p.epoch_vel = Velocity { moved: 0, over_ms: 1 };
            p.awaiting_fresh_stream = true;
            self.players.insert(sid, p);
            assert(self@.players =~= old(self)@.players.insert(sid, p@));
        } else {
            assert(self@.players =~= old(self)@.players);
        }
    }

    /// The stream origin recorded for a session, if its HTTP stream is
    /// attached.
    pub fn http_start(&self, sid: u64) -> (start: Option<u64>)
        ensures
            start == self@.start_of(sid),
    {
        match self.players.get(&sid) {
            Some(p) => p.b_start_bytes,
            None => None,
        }
    }

    /// The broadcast buffer dropped `bytes` for this player's reader (it lagged
    /// past retention). Those bytes never reach the player, so shift its stream
    /// origin forward to keep `b_start + elapsed` truthful.
    pub fn advance_http_start(&mut self, sid: u64, bytes: u64)
        requires
            old(self)@.wf(),
            old(self)@.start_of(sid) matches Some(b) ==> b + bytes <= u64::MAX,
        ensures
            final(self)@.wf(),
            final(self)@ == if old(self)@.players.contains_key(sid) {
                old(self)@.with(sid, old(self)@.players[sid].shifted(bytes))
            } else {
                old(self)@
            },
            old(self)@.start_of(sid) matches Some(b) ==> final(self)@.start_of(sid) == Some(
                (b + bytes) as u64,
            ),
    {
        if let Some(mut p) = self.players.remove(&sid) {
            assert(p@ == old(self)@.players[sid]);
            if let Some(b) = p.b_start_bytes {
                p.b_start_bytes = Some(b + bytes);
                p.last_epoch_sample = None;  // anchor moved; old velocity meaningless
            }
            self.players.insert(sid, p);
            assert(self@.players =~= old(self)@.players.insert(sid, p@));
        } else {
            assert(self@.players =~= old(self)@.players);
        }
    }

    /// A correction reached its player at `now`: its cooldown starts.
    pub fn correction_sent(&mut self, sid: u64, now: u32)
        requires
            old(self)@.wf(),
        ensures
            final(self)@.wf(),
            final(self)@ == if old(self)@.players.contains_key(sid) {
                old(self)@.with(sid, old(self)@.players[sid].corrected(now))
            } else {
                old(self)@
            },
            old(self)@.players.contains_key(sid) ==> final(self)@.players[sid].last_correction_ms
                == now,
    {
        if let Some(mut p) = self.players.remove(&sid) {
            p.last_correction_ms = now;
            self.players.insert(sid, p);
            assert(self@.players =~= old(self)@.players.insert(sid, p@));
        } else {
            assert(self@.players =~= old(self)@.players);
        }
    }

    /// A correction of a player was tried at `now`. Where the send failed, its
    /// cooldown stays as it was.
    pub fn correction_tried(&mut self, sid: u64, now: u32, sent: bool)
        requires
            old(self)@.wf(),
        ensures
            final(self)@.wf(),
            final(self)@ == if sent && old(self)@.players.contains_key(sid) {
                old(self)@.with(sid, old(self)@.players[sid].corrected(now))
            } else {
                old(self)@
            },
    {
        if sent {
            self.correction_sent(sid, now);
        }
    }

    /// Every correction of a round was tried; `sent` tells of each whether it
    /// reached its player. A failed send does not keep the others from being
    /// tried: there is an outcome for each.
    pub fn round_tried(&mut self, round: &Round, sent: &[bool])
        requires
            old(self)@.wf(),
            sent@.len() == round.corrections@.len(),
        ensures
            final(self)@.wf(),
            final(self)@ == old(self)@.tried(round.now, round.corrections@, sent@),
    {
        assert(self@.players =~= self@.tried(
            round.now,
            round.corrections@.take(0),
            sent@.take(0),
        ).players);
        for i in 0..sent.len()
            invariant
                self@.wf(),
                sent@.len() == round.corrections@.len(),
                self@ == old(self)@.tried(
                    round.now,
                    round.corrections@.take(i as int),
                    sent@.take(i as int),
                ),
        {
            self.correction_tried(round.corrections[i].sid, round.now, sent[i]);
            proof {
                lemma_one_more_tried(
                    old(self)@,
                    round.now,
                    round.corrections@,
                    sent@,
                    i as int,
                );
            }
        }
        assert(round.corrections@.take(sent@.len() as int) =~= round.corrections@);
        assert(sent@.take(sent@.len() as int) =~= sent@);
    }

    /// Compute anchors and decide how to correct every player that is off.
    fn evaluate(&self, now: u32) -> (out: Vec<Correction>)
        requires
            self@.wf(),
        ensures
            self@.round(now, out@),
    {
        let mut snaps: Vec<Snapshot> = Vec::new();
        let ghost mut from: Seq<int> = Seq::empty();
        for kv in it: self.players.iter()
            invariant
                self@.wf(),
                it.seq().no_duplicates(),
                forall|i: int|
                    0 <= i < snaps@.len() ==> self@.snapshot((#[trigger] snaps@[i]).sid, now)
                        == Some(snaps@[i]),
                from.len() == snaps@.len(),
                forall|i: int|
                    #![trigger from[i]]
                    0 <= i < from.len() ==> 0 <= from[i] < it.index() && *it.seq()[from[i]].0
                        == snaps@[i].sid,
                forall|i: int, j: int| 0 <= i < j < from.len() ==> from[i] < from[j],
                forall|k: int|
                    0 <= k < it.index() && self@.snapshot(
                        *(#[trigger] it.seq()[k]).0,
                        now,
                    ) is Some ==> exists|i: int|
                        0 <= i < snaps@.len() && (#[trigger] snaps@[i]).sid == *it.seq()[k].0,
                forall|i: int, j: int|
                    0 <= i < j < snaps@.len() ==> (#[trigger] snaps@[i]).sid != (
                    #[trigger] snaps@[j]).sid,
                epochs_bounded(snaps@),
        {
            let sid: u64 = *kv.0;
            let p: &Player = kv.1;
            let ghost before = snaps@;
            assert(p@ == self@.players[sid]);
            if now.wrapping_sub(p.last_report_ms) <= STALE_MS {
                if let Some(epoch) = p.epoch(self.scale) {
                    let snap = Snapshot {
                        sid,
                        epoch,
                        stable: p.steady(self.scale),
                        last_correction_ms: p.last_correction_ms,
                    };
                    assert(self@.snapshot(sid, now) == Some(snap));
                    snaps.push(snap);
                    proof {
                        assert forall|i: int| 0 <= i < before.len() implies (
                        #[trigger] before[i]).sid != sid by {
                            let k = from[i];
                            assert(*it.seq()[k].0 == before[i].sid);
                            assert(self.players@[*it.seq()[k].0] == *it.seq()[k].1);
                            assert(it.seq()[k] != it.seq()[it.index()]);
                        }
                        from = from.push(it.index());
                        assert(snaps@[before.len() as int].sid == sid);
                    }
                }
            }
            assert forall|k: int|
                0 <= k < it.index() + 1 && self@.snapshot(
                    *(#[trigger] it.seq()[k]).0,
                    now,
                ) is Some implies exists|i: int|
                0 <= i < snaps@.len() && (#[trigger] snaps@[i]).sid == *it.seq()[k].0 by {
                if k < it.index() {
                    let i = choose|i: int|
                        0 <= i < before.len() && (#[trigger] before[i]).sid == *it.seq()[k].0;
                    assert(snaps@[i] == before[i]);
                } else {
                    assert(snaps@[before.len() as int].sid == sid);
                }
            }
        }
        let out: Vec<Correction> = decide_corrections(snaps.as_slice(), self.scale, now);
        assert(self@.is_lineup(snaps@, now));
        out
    }

    /// Feed in a `STMt` report. `server_ts` is the echoed probe timestamp (0 for
    /// unprompted heartbeats); `recv_ms` is our clock when the report arrived.
    /// Returns the corrections to send, and our clock when they were decided:
    /// none for an unknown session, or where synchronization is switched off.
    pub fn on_stmt(
        &mut self,
        sid: u64,
        jiffies: u32,
        elapsed: u32,
        server_ts: u32,
        recv_ms: u32,
    ) -> (round: Round)
        requires
            old(self)@.wf(),
        ensures
            final(self)@.wf(),
            old(self)@.answered(
                sid,
                jiffies,
                elapsed,
                server_ts,
                recv_ms,
                final(self)@,
                round.now,
                round.corrections@,
            ),
    {
        let now: u32 = server_ms();
        let corrections: Vec<Correction> = self.on_stmt_at(
            sid,
            jiffies,
            elapsed,
            server_ts,
            recv_ms,
            now,
        );
        Round { now, corrections }
    }

    /// Feed in a `STMt` report that is acted upon when our clock reads `now`.
    pub fn on_stmt_at(
        &mut self,
        sid: u64,
        jiffies: u32,
        elapsed: u32,
        server_ts: u32,
        recv_ms: u32,
        now: u32,
    ) -> (out: Vec<Correction>)
        requires
            old(self)@.wf(),
        ensures
            final(self)@.wf(),
            old(self)@.answered(
                sid,
                jiffies,
                elapsed,
                server_ts,
                recv_ms,
                final(self)@,
                now,
                out@,
            ),
    {
        match self.players.remove(&sid) {
            Some(mut p) => {
                assert(p@ == old(self)@.players[sid]);
                p.report(self.scale, jiffies, elapsed, server_ts, recv_ms);
                self.players.insert(sid, p);
                assert(self@.players =~= old(self)@.players.insert(sid, p@));
            },
            None => {
                assert(self@.players =~= old(self)@.players);
                return Vec::new();
            },
        }
        if self.enabled {
            self.evaluate(now)
        } else {
            Vec::new()
        }
    }
}

/// Sessions never write into each other's timing state, even where they share a
/// MAC: a report on one leaves every other as it was.
pub proof fn law_sessions_stay_apart(
    before: SyncModel,
    sid: u64,
    jiffies: u32,
    elapsed: u32,
    server_ts: u32,
    recv_ms: u32,
    after: SyncModel,
    now: u32,
    out: Seq<Correction>,
    other: u64,
)
    requires
        before.answered(sid, jiffies, elapsed, server_ts, recv_ms, after, now, out),
        other != sid,
    ensures
        before.players.contains_key(other) == after.players.contains_key(other),
        before.players.contains_key(other) ==> after.players[other] == before.players[other],
{
}

/// A round corrects none but registered sessions, and of those only ones whose
/// reports are recent.
pub proof fn law_only_live_sessions_are_corrected(
    model: SyncModel,
    now: u32,
    out: Seq<Correction>,
    i: int,
)
    requires
        model.round(now, out),
        0 <= i < out.len(),
    ensures
        model.players.contains_key(out[i].sid),
        elapsed_ms(now, model.players[out[i].sid].last_report_ms) <= STALE_MS,
{
    let snaps = choose|snaps: Seq<Snapshot>| #[trigger]
        model.is_lineup(snaps, now) && out == decided(snaps, model.scale, now);
    let c = out[i];
    assert(out.contains(c));
    let r = reference(snaps, model.scale);
    lemma_corrections_members(snaps, r, model.scale, now, c);
    let k = choose|k: int|
        0 <= k < snaps.len() && correction_of(#[trigger] snaps[k], r, model.scale, now) == Some(c);
    assert(model.snapshot(snaps[k].sid, now) == Some(snaps[k]));
}

/// One more correction tried.
proof fn lemma_one_more_tried(
    model: SyncModel,
    now: u32,
    out: Seq<Correction>,
    sent: Seq<bool>,
    i: int,
)
    requires
        0 <= i < out.len(),
        out.len() == sent.len(),
    ensures
        ({
            let before = model.tried(now, out.take(i), sent.take(i));
            model.tried(now, out.take(i + 1), sent.take(i + 1)) == if sent[i]
                && before.players.contains_key(out[i].sid) {
                before.with(out[i].sid, before.players[out[i].sid].corrected(now))
            } else {
                before
            }
        }),
{
    let before = model.tried(now, out.take(i), sent.take(i));
    let after = model.tried(now, out.take(i + 1), sent.take(i + 1));
    assert forall|sid: u64|
        reached(out.take(i + 1), sent.take(i + 1), sid) == (reached(out.take(i), sent.take(i), sid)
            || (sent[i] && out[i].sid == sid)) by {
        if reached(out.take(i), sent.take(i), sid) {
            let k = choose|k: int|
                0 <= k < i && sent.take(i)[k] && (#[trigger] out.take(i)[k]).sid == sid;
            assert(out.take(i + 1)[k].sid == sid && sent.take(i + 1)[k]);
        }
        if sent[i] && out[i].sid == sid {
            assert(out.take(i + 1)[i].sid == sid && sent.take(i + 1)[i]);
        }
        if reached(out.take(i + 1), sent.take(i + 1), sid) {
            let k = choose|k: int|
                0 <= k < i + 1 && sent.take(i + 1)[k] && (#[trigger] out.take(i + 1)[k]).sid == sid;
            if k < i {
                assert(out.take(i)[k].sid == sid && sent.take(i)[k]);
            }
        }
    }
    if sent[i] && before.players.contains_key(out[i].sid) {
        assert(after.players =~= before.with(
            out[i].sid,
            before.players[out[i].sid].corrected(now),
        ).players);
    } else {
        assert(after.players =~= before.players);
    }
}

/// A round gives each player one correction at most.
proof fn lemma_one_correction_each(
    model: SyncModel,
    now: u32,
    out: Seq<Correction>,
    i: int,
    j: int,
)
    requires
        model.round(now, out),
        0 <= i < j < out.len(),
    ensures
        out[i].sid != out[j].sid,
{
    let snaps = choose|snaps: Seq<Snapshot>| #[trigger]
        model.is_lineup(snaps, now) && out == decided(snaps, model.scale, now);
    lemma_corrections_apart(snaps, reference(snaps, model.scale), model.scale, now, i, j);
}

/// Whether a player begins its cooldown is decided by the send of its own
/// correction alone: where that failed, nothing of the player changes, whatever
/// became of the others.
pub proof fn law_each_send_decides_its_own_cooldown(
    model: SyncModel,
    now: u32,
    out: Seq<Correction>,
    sent: Seq<bool>,
    i: int,
)
    requires
        model.round(now, out),
        sent.len() == out.len(),
        0 <= i < out.len(),
    ensures
        model.players.contains_key(out[i].sid),
        model.tried(now, out, sent).players[out[i].sid] == if sent[i] {
            model.players[out[i].sid].corrected(now)
        } else {
            model.players[out[i].sid]
        },
{
    law_only_live_sessions_are_corrected(model, now, out, i);
    let sid = out[i].sid;
    if sent[i] {
        assert(reached(out, sent, sid));
    } else if reached(out, sent, sid) {
        let k = choose|k: int| 0 <= k < out.len() && sent[k] && (#[trigger] out[k]).sid == sid;
        if k < i {
            lemma_one_correction_each(model, now, out, k, i);
        } else {
            lemma_one_correction_each(model, now, out, i, k);
        }
    }
}

/// Trying the corrections of a round adds and removes no player, changes
/// nothing of one that none of them was sent to, and of the others nothing but
/// when they were last corrected.
pub proof fn law_tried_round_touches_cooldowns_only(
    model: SyncModel,
    now: u32,
    out: Seq<Correction>,
    sent: Seq<bool>,
    sid: u64,
)
    ensures
        model.tried(now, out, sent).scale == model.scale,
        model.tried(now, out, sent).enabled == model.enabled,
        model.tried(now, out, sent).players.contains_key(sid) == model.players.contains_key(sid),
        model.players.contains_key(sid) ==> model.tried(now, out, sent).players[sid] == (
        PlayerModel {
            last_correction_ms: if reached(out, sent, sid) {
                now
            } else {
                model.players[sid].last_correction_ms
            },
            ..model.players[sid]
        }),
{
}

/// Whatever order the players are listed in, a round decides the same
/// corrections.
pub proof fn law_listing_order_does_not_matter(
    model: SyncModel,
    now: u32,
    a: Seq<Snapshot>,
    b: Seq<Snapshot>,
    c: Correction,
)
    requires
        model.wf(),
        model.is_lineup(a, now),
        model.is_lineup(b, now),
    ensures
        decided(a, model.scale, now).contains(c) == decided(b, model.scale, now).contains(c),
{
    lemma_lineups_agree(model, now, a, b);
    crate::align::law_only_stable_players_count(a, b, model.scale, now, c);
}

/// Every player of one lineup is in the other.
proof fn lemma_in_other_lineup(
    model: SyncModel,
    now: u32,
    a: Seq<Snapshot>,
    b: Seq<Snapshot>,
    i: int,
) -> (j: int)
    requires
        model.is_lineup(a, now),
        model.is_lineup(b, now),
        0 <= i < a.len(),
    ensures
        0 <= j < b.len(),
        b[j] == a[i],
{
    assert(model.snapshot(a[i].sid, now) == Some(a[i]));
    let j = choose|j: int| 0 <= j < b.len() && (#[trigger] b[j]).sid == a[i].sid;
    assert(model.snapshot(b[j].sid, now) == Some(b[j]));
    j
}

/// Two lineups have the same stable players.
proof fn lemma_lineups_agree(model: SyncModel, now: u32, a: Seq<Snapshot>, b: Seq<Snapshot>)
    requires
        model.is_lineup(a, now),
        model.is_lineup(b, now),
    ensures
        same_stable(a, b),
{
    assert forall|s: Snapshot| #[trigger] has_stable(a, s) == has_stable(b, s) by {
        if has_stable(a, s) {
            let i = choose|i: int| is_stable(a, i) && #[trigger] a[i] == s;
            let j = lemma_in_other_lineup(model, now, a, b, i);
            assert(is_stable(b, j) && b[j] == s);
        }
        if has_stable(b, s) {
            let i = choose|i: int| is_stable(b, i) && #[trigger] b[i] == s;
            let j = lemma_in_other_lineup(model, now, b, a, i);
            assert(is_stable(a, j) && a[j] == s);
        }
    }
}

/// Equal anchors mean alignment: two players report content positions that
/// differ by exactly as much as their server-clock times do, if and only if
/// their anchors are equal. (Times and positions in `1/scale` ms.)
pub proof fn law_equal_anchors_mean_alignment(p: PlayerModel, q: PlayerModel, scale: int)
    requires
        p.epoch(scale) is Some,
        q.epoch(scale) is Some,
    ensures
        p.epoch(scale) == q.epoch(scale) <==> q.content(scale) - p.content(scale)
            == q.server_time(scale) - p.server_time(scale),
{
    lemma_epoch_split(p, scale);
    lemma_epoch_split(q, scale);
}

/// An anchor is the server time less the content position.
proof fn lemma_epoch_split(p: PlayerModel, scale: int)
    requires
        p.epoch(scale) is Some,
    ensures
        p.epoch(scale) == Some(p.server_time(scale) - p.content(scale)),
{
    let clock = p.last_jiffies + p.offset_ms->0;
    assert((clock - p.last_elapsed) * scale == clock * scale - p.last_elapsed * scale)
        by (nonlinear_arith);
}

/// Bytes dropped from a player's stream move its content position forward, and
/// so its anchor back, by exactly the playing time of those bytes; its clock
/// is not touched.
pub proof fn law_dropped_bytes_move_the_content_position(p: PlayerModel, scale: int, bytes: u64)
    requires
        p.b_start_bytes matches Some(b) && b + bytes <= u64::MAX,
    ensures
        p.shifted(bytes).content(scale) == p.content(scale) + 1000 * bytes,
        p.shifted(bytes).server_time(scale) == p.server_time(scale),
        p.epoch(scale) matches Some(e) ==> p.shifted(bytes).epoch(scale) == Some(
            e - 1000 * bytes,
        ),
{
}

/// A stalled player never passes for steady: where its playback counter stands
/// still while its clock runs on, the next report that closes a sampling span
/// finds its anchor receding at the speed of the clock.
pub proof fn law_stalled_player_is_not_steady(
    p: PlayerModel,
    scale: int,
    sampled_ms: u32,
    recv_ms: u32,
)
    requires
        p.wf(),
        0 < scale <= MAX_SCALE,
        !p.awaiting_fresh_stream,
        p.epoch(scale) matches Some(e) && p.last_epoch_sample == Some((e as i128, sampled_ms)),
        elapsed_ms(recv_ms, sampled_ms) >= MIN_VELOCITY_SPAN_MS,
        p.last_jiffies + elapsed_ms(recv_ms, sampled_ms) <= u32::MAX,
    ensures
        !p.reported(
            scale,
            (p.last_jiffies + elapsed_ms(recv_ms, sampled_ms)) as u32,
            p.last_elapsed,
            0,
            recv_ms,
        ).steady(scale),
{
    let span = elapsed_ms(recv_ms, sampled_ms);
    let jiffies = (p.last_jiffies + span) as u32;
    let after = p.reported(scale, jiffies, p.last_elapsed, 0, recv_ms);
    let clock = p.last_jiffies + p.offset_ms->0 - p.last_elapsed;
    let moved = span * scale;
    assert((clock + span) * scale == clock * scale + span * scale) by (nonlinear_arith);
    lemma_epoch_reach(clock, p.b_start_bytes->0 as int, scale);
    lemma_epoch_reach(clock + span, p.b_start_bytes->0 as int, scale);
    assert(after.epoch_vel == (Velocity { moved: moved as i128, over_ms: span as u32 }));
    assert(1000 * (span * scale) > 100 * span * scale) by (nonlinear_arith)
        requires
            span >= 250,
            scale > 0,
    ;
}

/// A player in steady playback passes for steady: where its playback counter
/// keeps pace with its clock, its anchor does not move at all.
pub proof fn law_steady_playback_is_steady(
    p: PlayerModel,
    scale: int,
    sampled_ms: u32,
    recv_ms: u32,
    played: u32,
)
    requires
        p.wf(),
        0 < scale <= MAX_SCALE,
        !p.awaiting_fresh_stream,
        p.epoch(scale) matches Some(e) && p.last_epoch_sample == Some((e as i128, sampled_ms)),
        elapsed_ms(recv_ms, sampled_ms) >= MIN_VELOCITY_SPAN_MS,
        p.last_jiffies + played <= u32::MAX,
        p.last_elapsed + played <= u32::MAX,
    ensures
        p.reported(
            scale,
            (p.last_jiffies + played) as u32,
            (p.last_elapsed + played) as u32,
            0,
            recv_ms,
        ).steady(scale),
{
    let clock = p.last_jiffies + p.offset_ms->0 - p.last_elapsed;
    lemma_epoch_reach(clock, p.b_start_bytes->0 as int, scale);
    let after = p.reported(
        scale,
        (p.last_jiffies + played) as u32,
        (p.last_elapsed + played) as u32,
        0,
        recv_ms,
    );
    assert(after.epoch_vel.moved == 0);
    let over = after.epoch_vel.over_ms;
    assert(100 * over * scale >= 0) by (nonlinear_arith)
        requires
            over >= 0,
            scale > 0,
    ;
}

/// A leftover report against the previous stream cannot anchor a player on the
/// new one: from the drop of a stream on, and through the attachment of the
/// next, the player has no anchor until a report with a young counter comes.
pub proof fn law_leftover_report_cannot_anchor(
    p: PlayerModel,
    scale: int,
    b_start: u64,
    jiffies: u32,
    elapsed: u32,
    server_ts: u32,
    recv_ms: u32,
)
    requires
        elapsed >= FRESH_STREAM_MAX_ELAPSED_MS,
    ensures
        p.detached().epoch(scale) is None,
        p.detached().attached(b_start).epoch(scale) is None,
        p.detached().attached(b_start).reported(scale, jiffies, elapsed, server_ts, recv_ms).epoch(
            scale,
        ) is None,
        p.detached().attached(b_start).reported(
            scale,
            jiffies,
            elapsed,
            server_ts,
            recv_ms,
        ).awaiting_fresh_stream,
{
}

/// A probe is measured at the middle of its round trip: the offset recorded for
/// a report that answers a probe sent at `server_ts` and arriving at `recv_ms`
/// puts the player's clock there, to within half a millisecond, however long
/// the trip took. (Where the server clock wraps on the way, modulo its range.)
pub proof fn law_probe_is_measured_at_its_middle(
    before: SyncModel,
    sid: u64,
    jiffies: u32,
    elapsed: u32,
    server_ts: u32,
    recv_ms: u32,
    after: SyncModel,
    now: u32,
    out: Seq<Correction>,
)
    requires
        before.answered(sid, jiffies, elapsed, server_ts, recv_ms, after, now, out),
        before.players.contains_key(sid),
        before.players[sid].wf(),
        server_ts != 0,
    ensures
        after.players[sid].probes.len() > 0,
        ({
            let probe = after.players[sid].probes.last();
            let read = probe.offset + jiffies;
            let twice = server_ts + recv_ms;
            let over = twice + 0x1_0000_0000;
            &&& 0 <= read < 0x1_0000_0000
            &&& server_ts <= recv_ms ==> probe.rtt == recv_ms - server_ts && twice - 1 <= 2 * read
                <= twice
            &&& server_ts > recv_ms ==> probe.rtt == recv_ms + 0x1_0000_0000 - server_ts && (over
                - 1 <= 2 * read <= over || over - 1 <= 2 * (read + 0x1_0000_0000) <= over)
        }),
{
    let p = before.players[sid].heard(jiffies, elapsed, recv_ms);
    let probe = probe_of(jiffies, server_ts, recv_ms);
    assert(after.players[sid].probes == probe_window(p.probes, probe));
    assert(after.players[sid].probes.last() == probe);
}

/// The offset of a player's clock is found whatever the round-trip time: where
/// its clock reads `lag` ms less than ours at the middle of a probe's way, that
/// is what the probe records.
pub proof fn law_offset_does_not_depend_on_the_trip(
    before: SyncModel,
    sid: u64,
    jiffies: u32,
    elapsed: u32,
    server_ts: u32,
    recv_ms: u32,
    after: SyncModel,
    now: u32,
    out: Seq<Correction>,
    lag: int,
)
    requires
        before.answered(sid, jiffies, elapsed, server_ts, recv_ms, after, now, out),
        before.players.contains_key(sid),
        before.players[sid].wf(),
        0 < server_ts <= recv_ms,
        2 * (jiffies + lag) == server_ts + recv_ms,
    ensures
        after.players[sid].probes.last().offset == lag,
{
    law_probe_is_measured_at_its_middle(
        before,
        sid,
        jiffies,
        elapsed,
        server_ts,
        recv_ms,
        after,
        now,
        out,
    );
}

/// Of several probes with the lowest round-trip time the earliest is the best.
proof fn lemma_best_probe_is_earliest(probes: Seq<Probe>, j: int)
    requires
        0 <= j < best_probe(probes),
        probes.len() > 0,
    ensures
        best_probe(probes) < probes.len(),
        probes[best_probe(probes)].rtt < probes[j].rtt,
    decreases probes.len(),
{
    law_offset_is_from_the_quickest_probe(probes, 0);
    if probes.len() > 1 {
        let front = probes.drop_last();
        let before = best_probe(front);
        law_offset_is_from_the_quickest_probe(front, 0);
        if best_probe(probes) == before {
            lemma_best_probe_is_earliest(front, j);
            assert(front[j] == probes[j]);
        } else {
            law_offset_is_from_the_quickest_probe(front, j);
            assert(front[j] == probes[j]);
        }
        assert(front[before] == probes[before]);
    }
}

/// The eight most recent probes are kept, and the clock offset is that of the
/// quickest among them, the earliest of several: jitter does not poison it. A
/// report that answers no probe leaves both as they were.
pub proof fn law_offset_is_that_of_the_quickest_recent_probe(
    before: SyncModel,
    sid: u64,
    jiffies: u32,
    elapsed: u32,
    server_ts: u32,
    recv_ms: u32,
    after: SyncModel,
    now: u32,
    out: Seq<Correction>,
)
    requires
        before.answered(sid, jiffies, elapsed, server_ts, recv_ms, after, now, out),
        before.players.contains_key(sid),
        before.players[sid].wf(),
    ensures
        ({
            let was = before.players[sid].probes;
            let is = after.players[sid].probes;
            if server_ts == 0 {
                is == was && after.players[sid].offset_ms == before.players[sid].offset_ms
            } else {
                &&& is.len() == (if was.len() < 8 { was.len() + 1 } else { 8 })
                &&& forall|k: int|
                    1 <= k < is.len() ==> #[trigger] is[is.len() - 1 - k] == was[was.len() - k]
                &&& exists|i: int|
                    0 <= i < is.len() && after.players[sid].offset_ms == Some(
                        (#[trigger] is[i]).offset,
                    ) && (forall|j: int| 0 <= j < is.len() ==> is[i].rtt <= (#[trigger] is[j]).rtt)
                        && (forall|j: int| 0 <= j < i ==> is[i].rtt < (#[trigger] is[j]).rtt)
            }
        }),
{
    if server_ts != 0 {
        let was = before.players[sid].probes;
        let is = after.players[sid].probes;
        assert(is == probe_window(was, probe_of(jiffies, server_ts, recv_ms)));
        let i = best_probe(is);
        law_offset_is_from_the_quickest_probe(is, 0);
        assert(after.players[sid].offset_ms == Some(is[i].offset));
        assert forall|j: int| 0 <= j < is.len() implies is[i].rtt <= (#[trigger] is[j]).rtt by {
            law_offset_is_from_the_quickest_probe(is, j);
        }
        assert forall|j: int| 0 <= j < i implies is[i].rtt < (#[trigger] is[j]).rtt by {
            lemma_best_probe_is_earliest(is, j);
        }
    }
}

/// What a report says is taken over: the player's clock, when the report came,
/// and the playing time, but for one of 10 s or more where the first report of
/// a fresh stream is awaited. Where the stream began and when the player was
/// last corrected are no concern of a report.
pub proof fn law_report_is_taken_over(
    before: SyncModel,
    sid: u64,
    jiffies: u32,
    elapsed: u32,
    server_ts: u32,
    recv_ms: u32,
    after: SyncModel,
    now: u32,
    out: Seq<Correction>,
)
    requires
        before.answered(sid, jiffies, elapsed, server_ts, recv_ms, after, now, out),
        before.players.contains_key(sid),
    ensures
        after.players.contains_key(sid),
        after.scale == before.scale,
        after.enabled == before.enabled,
        ({
            let was = before.players[sid];
            let is = after.players[sid];
            let leftover = was.awaiting_fresh_stream && elapsed >= 10000;
            &&& is.last_jiffies == jiffies
            &&& is.last_report_ms == recv_ms
            &&& is.last_elapsed == (if leftover { was.last_elapsed } else { elapsed })
            &&& is.awaiting_fresh_stream == leftover
            &&& is.b_start_bytes == was.b_start_bytes
            &&& is.last_correction_ms == was.last_correction_ms
            &&& is.mac == was.mac
            &&& is.name == was.name
        }),
{
}

/// A report of a session that is not registered changes nothing, and nothing
/// is corrected on it; nor is anything while synchronization is switched off,
/// though the report is then taken in all the same.
pub proof fn law_no_corrections_unless_registered_and_enabled(
    before: SyncModel,
    sid: u64,
    jiffies: u32,
    elapsed: u32,
    server_ts: u32,
    recv_ms: u32,
    after: SyncModel,
    now: u32,
    out: Seq<Correction>,
)
    requires
        before.answered(sid, jiffies, elapsed, server_ts, recv_ms, after, now, out),
    ensures
        !before.players.contains_key(sid) ==> after == before && out.len() == 0,
        !before.enabled ==> out.len() == 0,
        before.players.contains_key(sid) ==> after.players[sid].last_report_ms == recv_ms,
{
}

/// Anchors compare what players render: where the clock of one, in server time,
/// is `later` ms past that of the other, and the content that it plays is
/// `further` bytes and `longer` ms of playing time further on, its anchor is
/// larger by just the difference of the two. So players that render the same
/// content at the same time have the same anchor, and one that renders it `t` ms
/// later has an anchor that is larger by `t` ms.
pub proof fn law_anchors_compare_what_is_rendered(
    p: PlayerModel,
    q: PlayerModel,
    scale: int,
    later: int,
    further: int,
    longer: int,
)
    requires
        p.offset_ms is Some && q.offset_ms is Some,
        p.b_start_bytes is Some && q.b_start_bytes is Some,
        p.last_elapsed >= 2000 && q.last_elapsed >= 2000,
        q.last_jiffies + q.offset_ms->0 == p.last_jiffies + p.offset_ms->0 + later,
        q.b_start_bytes->0 == p.b_start_bytes->0 + further,
        q.last_elapsed == p.last_elapsed + longer,
    ensures
        p.epoch(scale) is Some && q.epoch(scale) is Some,
        q.epoch(scale)->0 - p.epoch(scale)->0 == later * scale - longer * scale - 1000 * further,
{
    let base = p.last_jiffies + p.offset_ms->0 - p.last_elapsed;
    assert((base + later - longer) * scale == base * scale + later * scale - longer * scale)
        by (nonlinear_arith);
}

/// A player has an anchor if and only if its clock offset is known, its HTTP
/// stream is attached and it has played for at least 2 s.
pub proof fn law_who_has_an_anchor(p: PlayerModel, scale: int)
    ensures
        p.epoch(scale) is Some <==> p.offset_ms is Some && p.b_start_bytes is Some
            && p.last_elapsed >= 2000,
{
}

/// Who takes part in a round at `now`: every registered player that has an
/// anchor and reported within the last 5 s of the wrapping server clock, with
/// that anchor and with when it was last corrected.
pub proof fn law_who_takes_part(model: SyncModel, sid: u64, now: u32)
    requires
        model.wf(),
    ensures
        model.snapshot(sid, now) is Some <==> {
            &&& model.players.contains_key(sid)
            &&& model.players[sid].epoch(model.scale) is Some
            &&& model.players[sid].last_report_ms <= now ==> now
                - model.players[sid].last_report_ms <= 5000
            &&& model.players[sid].last_report_ms > now ==> now + 0x1_0000_0000
                - model.players[sid].last_report_ms <= 5000
        },
        model.snapshot(sid, now) matches Some(s) ==> {
            &&& s.sid == sid
            &&& model.players[sid].epoch(model.scale) == Some(s.epoch as int)
            &&& s.last_correction_ms == model.players[sid].last_correction_ms
        },
{
    if model.players.contains_key(sid) && model.players[sid].epoch(model.scale) is Some {
        lemma_player_epoch_reach(model.players[sid], model.scale);
    }
}

/// The anchor of a player stays within [`EPOCH_REACH`].
proof fn lemma_player_epoch_reach(p: PlayerModel, scale: int)
    requires
        p.wf(),
        0 < scale <= MAX_SCALE,
    ensures
        p.epoch(scale) matches Some(e) ==> -EPOCH_REACH <= e <= EPOCH_REACH,
{
    if p.epoch(scale) is Some {
        lemma_epoch_reach(
            p.last_jiffies + p.offset_ms->0 - p.last_elapsed,
            p.b_start_bytes->0 as int,
            scale,
        );
    }
}

/// When a player counts as steady: its anchor is sampled with a report that
/// comes at least 250 ms after the sample before, and the player is steady if
/// and only if the anchor moved at no more than 100 ms per second in between. A
/// report that comes sooner, or before which there is no sample, or on which
/// there is no anchor, leaves the verdict as it was.
pub proof fn law_steady_means_no_faster_than_a_tenth(
    before: SyncModel,
    sid: u64,
    jiffies: u32,
    elapsed: u32,
    server_ts: u32,
    recv_ms: u32,
    after: SyncModel,
    now: u32,
    out: Seq<Correction>,
    later: u32,
)
    requires
        before.wf(),
        before.answered(sid, jiffies, elapsed, server_ts, recv_ms, after, now, out),
        before.players.contains_key(sid),
    ensures
        ({
            let was = before.players[sid];
            let is = after.players[sid];
            let scale = after.scale;
            match (is.epoch(scale), was.last_epoch_sample) {
                (Some(e), Some((e0, t0))) => {
                    let span = if t0 <= recv_ms {
                        recv_ms - t0
                    } else {
                        recv_ms + 0x1_0000_0000 - t0
                    };
                    let moved = if e >= e0 {
                        e - e0
                    } else {
                        e0 - e
                    };
                    if span >= 250 {
                        &&& is.last_epoch_sample matches Some((e1, t1)) && e1 == e && t1 == recv_ms
                        &&& after.snapshot(sid, later) matches Some(s) ==> (s.stable <==> 1000
                            * moved <= 100 * span * scale)
                    } else {
                        &&& is.last_epoch_sample == was.last_epoch_sample
                        &&& is.epoch_vel == was.epoch_vel
                    }
                },
                (Some(e), None) => {
                    &&& is.last_epoch_sample matches Some((e1, t1)) && e1 == e && t1 == recv_ms
                    &&& is.epoch_vel == was.epoch_vel
                },
                (None, _) => {
                    &&& is.last_epoch_sample == was.last_epoch_sample
                    &&& is.epoch_vel == was.epoch_vel
                },
            }
        }),
{
    let was = before.players[sid];
    let is = after.players[sid];
    let scale = after.scale;
    let heard = was.heard(jiffies, elapsed, recv_ms);
    let probed = heard.probed(jiffies, server_ts, recv_ms);
    assert(was.wf());
    lemma_probed_wf(heard, jiffies, server_ts, recv_ms);
    lemma_player_epoch_reach(probed, scale);
    assert(is == probed.sampled(scale, recv_ms));
    assert(is.epoch(scale) == probed.epoch(scale));
}

/// Completing a probe keeps the measurements in range.
proof fn lemma_probed_wf(p: PlayerModel, jiffies: u32, server_ts: u32, recv_ms: u32)
    requires
        p.wf(),
    ensures
        p.probed(jiffies, server_ts, recv_ms).wf(),
{
    if server_ts != 0 {
        let probe = probe_of(jiffies, server_ts, recv_ms);
        let probes = probe_window(p.probes, probe);
        assert forall|i: int| 0 <= i < probes.len() implies -0x1_0000_0000 <= (
        #[trigger] probes[i]).offset <= 0x1_0000_0000 by {
            let all = p.probes.push(probe);
            if all.len() > PROBE_WINDOW {
                assert(probes[i] == all[i + 1]);
                if i + 1 < p.probes.len() {
                    assert(all[i + 1] == p.probes[i + 1]);
                }
            } else if i < p.probes.len() {
                assert(probes[i] == p.probes[i]);
            }
        }
        law_offset_is_from_the_quickest_probe(probes, 0);
        assert(-0x1_0000_0000 <= probes[best_probe(probes)].offset <= 0x1_0000_0000);
    }
}

/// A session that has just said HELO is steady, but takes no part in any round,
/// whatever it reports, until its HTTP stream attaches.
pub proof fn law_fresh_session_waits_for_its_stream(
    mac: Seq<char>,
    name: Seq<char>,
    scale: int,
    jiffies: u32,
    elapsed: u32,
    server_ts: u32,
    recv_ms: u32,
)
    requires
        scale > 0,
    ensures
        ({
            let fresh = PlayerModel::fresh(mac, name);
            &&& fresh.mac == mac && fresh.name == name
            &&& fresh.probes.len() == 0
            &&& fresh.last_correction_ms == 0 && fresh.last_report_ms == 0
            &&& fresh.steady(scale)
            &&& fresh.wf()
            &&& fresh.epoch(scale) is None
            &&& fresh.reported(scale, jiffies, elapsed, server_ts, recv_ms).epoch(scale) is None
            &&& fresh.awaiting_fresh_stream
        }),
{
}

/// Where a stream began is what was recorded when it attached, and is forgotten
/// when it drops; neither touches the clock of the player nor when it was last
/// corrected. The velocity of the anchor is not measured across either: the
/// next report is the first sample.
pub proof fn law_stream_origin_is_what_was_recorded(
    model: SyncModel,
    sid: u64,
    b_start: u64,
)
    requires
        model.players.contains_key(sid),
    ensures
        ({
            let was = model.players[sid];
            let on = was.attached(b_start);
            let off = was.detached();
            &&& model.with(sid, on).start_of(sid) == Some(b_start)
            &&& model.with(sid, off).start_of(sid) is None
            &&& on.last_epoch_sample is None && off.last_epoch_sample is None
            &&& on.probes == was.probes && off.probes == was.probes
            &&& on.offset_ms == was.offset_ms && off.offset_ms == was.offset_ms
            &&& on.last_jiffies == was.last_jiffies && off.last_jiffies == was.last_jiffies
            &&& on.last_report_ms == was.last_report_ms && off.last_report_ms
                == was.last_report_ms
            &&& on.last_correction_ms == was.last_correction_ms && off.last_correction_ms
                == was.last_correction_ms
            &&& on.last_elapsed == was.last_elapsed && on.awaiting_fresh_stream
                == was.awaiting_fresh_stream && on.epoch_vel == was.epoch_vel
            &&& off.last_elapsed == 0 && off.awaiting_fresh_stream
            &&& off.steady(model.scale) || model.scale < 0
            &&& on.mac == was.mac && off.mac == was.mac && on.name == was.name && off.name
                == was.name
        }),
{
}

/// What a round corrects: where `r` is the anchor of the slowest stable player
/// taking part that is no more than 1500 ms behind any other, each player that
/// is due a correction against it is given that correction, and no other is
/// given.
pub proof fn law_round_corrects_who_is_due(
    model: SyncModel,
    now: u32,
    out: Seq<Correction>,
    slowest: u64,
    r: int,
    c: Correction,
)
    requires
        model.wf(),
        model.round(now, out),
        model.snapshot(slowest, now) matches Some(s) && s.stable && s.epoch == r,
        forall|sid: u64|
            (#[trigger] model.snapshot(sid, now)) matches Some(s) && s.stable ==> r <= (
            model.snapshot(sid, now)->0).epoch + 1500 * model.scale,
        forall|sid: u64|
            (#[trigger] model.snapshot(sid, now)) matches Some(s) && s.stable && s.epoch > r
                ==> exists|other: u64|
                ((#[trigger] model.snapshot(other, now)) matches Some(o) && o.stable && (
                model.snapshot(sid, now)->0).epoch > o.epoch + 1500 * model.scale),
    ensures
        out.contains(c) <==> (model.snapshot(c.sid, now) matches Some(s) && crate::align::due(
            c,
            s,
            r,
            model.scale,
            now,
        )),
{
    let scale = model.scale;
    let snaps = choose|snaps: Seq<Snapshot>| #[trigger]
        model.is_lineup(snaps, now) && out == decided(snaps, model.scale, now);
    assert forall|i: int| 0 <= i < snaps.len() implies -crate::align::EPOCH_LIMIT <= (
    #[trigger] snaps[i]).epoch <= crate::align::EPOCH_LIMIT by {
        assert(model.snapshot(snaps[i].sid, now) == Some(snaps[i]));
        law_who_takes_part(model, snaps[i].sid, now);
        lemma_player_epoch_reach(model.players[snaps[i].sid], scale);
    }
    let k = choose|k: int| 0 <= k < snaps.len() && (#[trigger] snaps[k]).sid == slowest;
    assert(model.snapshot(snaps[k].sid, now) == Some(snaps[k]));
    assert forall|i: int| 0 <= i < snaps.len() && (#[trigger] snaps[i]).stable implies r
        <= snaps[i].epoch + 1500 * scale by {
        assert(model.snapshot(snaps[i].sid, now) == Some(snaps[i]));
    }
    assert forall|i: int|
        0 <= i < snaps.len() && (#[trigger] snaps[i]).stable && snaps[i].epoch > r implies exists|
        j: int,
    |
        0 <= j < snaps.len() && (#[trigger] snaps[j]).stable && snaps[i].epoch > snaps[j].epoch
            + 1500 * scale by {
        assert(model.snapshot(snaps[i].sid, now) == Some(snaps[i]));
        let other = choose|other: u64|
            ((#[trigger] model.snapshot(other, now)) matches Some(o) && o.stable && snaps[i].epoch
                > o.epoch + 1500 * scale);
        let j = choose|j: int| 0 <= j < snaps.len() && (#[trigger] snaps[j]).sid == other;
        assert(model.snapshot(snaps[j].sid, now) == Some(snaps[j]));
    }
    crate::align::law_decided_is_what_is_due(snaps, r, scale, now, c);
    if out.contains(c) {
        let i = choose|i: int|
            0 <= i < snaps.len() && crate::align::due(c, #[trigger] snaps[i], r, scale, now);
        assert(model.snapshot(snaps[i].sid, now) == Some(snaps[i]));
    }
    if model.snapshot(c.sid, now) is Some && crate::align::due(
        c,
        model.snapshot(c.sid, now)->0,
        r,
        scale,
        now,
    ) {
        let i = choose|i: int| 0 <= i < snaps.len() && (#[trigger] snaps[i]).sid == c.sid;
        assert(model.snapshot(snaps[i].sid, now) == Some(snaps[i]));
        assert(crate::align::due(c, snaps[i], r, scale, now));
    }
}

/// With synchronization switched on, every report of a registered session is
/// followed by a round over all players as they are with that report taken in:
/// whoever is due a correction then is given it, and no other is given.
pub proof fn law_report_corrects_who_is_due(
    before: SyncModel,
    sid: u64,
    jiffies: u32,
    elapsed: u32,
    server_ts: u32,
    recv_ms: u32,
    after: SyncModel,
    now: u32,
    out: Seq<Correction>,
    slowest: u64,
    r: int,
    c: Correction,
)
    requires
        before.answered(sid, jiffies, elapsed, server_ts, recv_ms, after, now, out),
        before.players.contains_key(sid),
        before.enabled,
        after.wf(),
        after.snapshot(slowest, now) matches Some(s) && s.stable && s.epoch == r,
        forall|other: u64|
            (#[trigger] after.snapshot(other, now)) matches Some(s) && s.stable ==> r <= (
            after.snapshot(other, now)->0).epoch + 1500 * after.scale,
        forall|other: u64|
            (#[trigger] after.snapshot(other, now)) matches Some(s) && s.stable && s.epoch > r
                ==> exists|third: u64|
                ((#[trigger] after.snapshot(third, now)) matches Some(o) && o.stable && (
                after.snapshot(other, now)->0).epoch > o.epoch + 1500 * after.scale),
    ensures
        out.contains(c) <==> (after.snapshot(c.sid, now) matches Some(s) && crate::align::due(
            c,
            s,
            r,
            after.scale,
            now,
        )),
{
    law_round_corrects_who_is_due(after, now, out, slowest, r, c);
}

/// Milliseconds since the Unix epoch, on the wrapping 32-bit server clock.
pub fn clock_ms(millis: u128) -> (ms: u32)
    ensures
        ms == millis % 0x1_0000_0000,
        ms <= millis,
        (millis - ms) % 0x1_0000_0000 == 0,
{
    (millis % 0x1_0000_0000) as u32
}

/// The server clock at a reading of the system clock, given in milliseconds
/// since the Unix epoch: none where the system clock is set before it, and then
/// the server clock reads 0.
pub fn clock_reading(millis: Option<u128>) -> (ms: u32)
    ensures
        ms == match millis {
            Some(since) => since % 0x1_0000_0000,
            None => 0,
        },
{
    match millis {
        Some(since) => clock_ms(since),
        None => 0,
    }
}

/// A point in time of the system clock.
#[verifier::external_type_specification]
#[verifier::external_body]
pub struct ExSystemTime(std::time::SystemTime);

/// The error of a point in time that lies before the one it is compared with.
#[verifier::external_type_specification]
#[verifier::external_body]
pub struct ExSystemTimeError(std::time::SystemTimeError);

/// Calls `std::time::SystemTime::now`, which reads the system clock. Nothing
/// is claimed of what it reads.
#[verifier::external_body]
fn system_time() -> std::time::SystemTime {
    std::time::SystemTime::now()
}

/// Calls `std::time::SystemTime::duration_since` with the Unix epoch. Nothing
/// is claimed of the span, nor of which times lie before the epoch.
#[verifier::external_body]
fn since_unix_epoch(time: std::time::SystemTime) -> Result<
    std::time::Duration,
    std::time::SystemTimeError,
> {
    time.duration_since(std::time::UNIX_EPOCH)
}

/// Calls `std::time::Duration::as_millis`. Nothing is claimed of how many
/// milliseconds the span has.
#[verifier::external_body]
fn whole_millis(span: std::time::Duration) -> u128 {
    span.as_millis()
}

/// Server clock in milliseconds - the same base we stamp into `strm 't'`
/// probes and compare against player `jiffies` (via the measured offset). It
/// is the [`clock_reading`] of the system clock, of which nothing can be
/// promised: any 32-bit number is the server clock at some time.
pub fn server_ms() -> u32 {
    let millis: Option<u128> = match since_unix_epoch(system_time()) {
        Ok(span) => Some(whole_millis(span)),
        Err(_) => None,
    };
    clock_reading(millis)
}

} // verus!
