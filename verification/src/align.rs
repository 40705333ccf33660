//! Deciding how to bring the players of a group into alignment.
//!
//! A player's sync anchor (its epoch) is the server-clock time at which it
//! would have played content position 0, so equal anchors mean perfect
//! alignment, and a larger anchor means a player that is further behind.
//! Anchors are exact fractions of a millisecond: the integers here count
//! `1/scale` ms, where `scale` is the byte rate of the stream, which is what a
//! byte position has to be divided by to become a time.
//!
//! Pure and deterministic (no clock, no I/O).

use vstd::prelude::*;

verus! {

/// Don't nudge a player unless it's off by more than this (audio-frame noise).
pub const DEADBAND_MS: i128 = 10;

/// Minimum gap between corrections to one player. Must exceed [`MAX_PAUSE_MS`]
/// so a pause fully plays out and we re-measure before deciding again.
pub const COOLDOWN_MS: u32 = 3000;

/// Cap a single pause; larger initial errors converge over successive rounds
/// rather than inserting one long audible silence.
pub const MAX_PAUSE_MS: u32 = 1000;

/// Pause for slightly less than the measured error. Squeezelite quantizes a
/// pause *up* to whole output callbacks, so an exact-length pause can overshoot
/// past the laggard - the corrected player then becomes the new reference a few
/// ms back, and the group ratchets backward through endless micro-pauses.
/// Undershooting lands the correction inside the deadband instead.
pub const PAUSE_UNDERSHOOT_MS: i128 = 8;

/// How far behind the most-advanced player the group is willing to follow a
/// laggard (by pausing everyone else). A player further behind than this is
/// parked - it stalled and got left back - and is skipped *forward* to the
/// group instead of the group sinking to it. Anchoring the band at the most-
/// advanced player means no number of co-stalled players can drag it down.
pub const FOLLOW_MAX_MS: i128 = 1500;

/// Cap a single catch-up skip. A skip is a content splice (not silence), so
/// larger jumps are fine, but capping lets measurements keep up round-by-round.
pub const MAX_SKIP_MS: u32 = 2000;

/// No anchor is further than this from 0; the arithmetic below stays within
/// 128 bits for anchors up to here.
pub const EPOCH_LIMIT: i128 = 0x0010_0000_0000_0000_0000_0000_0000_0000;

/// A player's sync state at one instant.
#[derive(Clone, Copy, Debug)]
pub struct Snapshot {
    pub sid: u64,
    /// Sync anchor, in `1/scale` ms.
    pub epoch: i128,
    /// Anchor is moving at a steady-playback rate (not mid-stall/correction).
    pub stable: bool,
    pub last_correction_ms: u32,
}

/// How to bring one player into alignment.
#[derive(Clone, Copy, Debug, PartialEq, Eq, Structural)]
pub enum Action {
    /// Insert this much silence - for a player running ahead of the reference.
    Pause(u32),
    /// Discard this much buffered audio - for a player parked behind the group
    /// after a stall. Self-limiting: squeezelite only skips what it has
    /// buffered, so a player that is behind because data hasn't *arrived* yet
    /// simply skips almost nothing and stays where it is.
    Skip(u32),
}

/// One correction to apply.
#[derive(Clone, Copy, Debug)]
pub struct Correction {
    pub sid: u64,
    pub action: Action,
    /// How far the player is ahead of the reference (behind it, where
    /// negative), in `1/scale` ms.
    pub error: i128,
}

/// Milliseconds from `then` to `now` on the wrapping 32-bit server clock.
pub open spec fn elapsed_ms(now: u32, then: u32) -> int {
    (now - then) % 0x1_0000_0000
}

/// `n/scale`, rounded to the nearest integer, halves upward.
pub open spec fn rounded(n: int, scale: int) -> int {
    (2 * n + scale) / (2 * scale)
}

/// How many milliseconds to correct an error of `size/scale` ms by.
pub open spec fn nudge(size: int, scale: int, cap: u32) -> u32 {
    let amount = rounded(size - PAUSE_UNDERSHOOT_MS * scale, scale);
    if amount < cap {
        amount as u32
    } else {
        cap
    }
}

/// What an error of `error/scale` ms calls for.
pub open spec fn action_for(error: int, scale: int) -> Option<Action> {
    if error > DEADBAND_MS * scale {
        Some(Action::Pause(nudge(error, scale, MAX_PAUSE_MS)))
    } else if -error > DEADBAND_MS * scale {
        Some(Action::Skip(nudge(-error, scale, MAX_SKIP_MS)))
    } else {
        None
    }
}

/// The correction of one player against the reference anchor, if it is due
/// one: a stable player, not corrected within the cooldown, and off by more
/// than the deadband.
pub open spec fn correction_of(s: Snapshot, reference: int, scale: int, now: u32) -> Option<
    Correction,
> {
    let error = reference - s.epoch;
    if !s.stable || elapsed_ms(now, s.last_correction_ms) < COOLDOWN_MS {
        None
    } else {
        match action_for(error, scale) {
            Some(action) => Some(Correction { sid: s.sid, action, error: error as i128 }),
            None => None,
        }
    }
}

/// Every correction against the reference anchor, in the order of the players.
pub open spec fn corrections(
    snaps: Seq<Snapshot>,
    reference: int,
    scale: int,
    now: u32,
) -> Seq<Correction>
    decreases snaps.len(),
{
    if snaps.len() == 0 {
        Seq::empty()
    } else {
        let front = corrections(snaps.drop_last(), reference, scale, now);
        match correction_of(snaps.last(), reference, scale, now) {
            Some(c) => front.push(c),
            None => front,
        }
    }
}

/// Whether player number `i` is a stable one.
pub open spec fn is_stable(snaps: Seq<Snapshot>, i: int) -> bool {
    0 <= i < snaps.len() && snaps[i].stable
}

/// Whether any player is stable.
pub open spec fn any_stable(snaps: Seq<Snapshot>) -> bool {
    exists|i: int| is_stable(snaps, i)
}

/// Whether `epoch` is within the follow band: no more than [`FOLLOW_MAX_MS`]
/// behind any stable player, and so behind the most-advanced one.
pub open spec fn in_band(snaps: Seq<Snapshot>, scale: int, epoch: int) -> bool {
    forall|j: int|
        is_stable(snaps, j) ==> epoch <= (#[trigger] snaps[j]).epoch + FOLLOW_MAX_MS * scale
}

/// Whether `r` is the anchor the group aligns to: that of the most-delayed
/// stable player within the follow band.
pub open spec fn is_reference(snaps: Seq<Snapshot>, scale: int, r: int) -> bool {
    &&& in_band(snaps, scale, r)
    &&& exists|i: int| is_stable(snaps, i) && (#[trigger] snaps[i]).epoch == r
    &&& forall|i: int|
        is_stable(snaps, i) && in_band(snaps, scale, (#[trigger] snaps[i]).epoch as int)
            ==> snaps[i].epoch <= r
}

/// The anchor the group aligns to.
pub open spec fn reference(snaps: Seq<Snapshot>, scale: int) -> int {
    choose|r: int| is_reference(snaps, scale, r)
}

/// Every correction due: none unless there are at least two players and a
/// stable one among them.
pub open spec fn decided(snaps: Seq<Snapshot>, scale: int, now: u32) -> Seq<Correction> {
    if snaps.len() < 2 || !any_stable(snaps) {
        Seq::empty()
    } else {
        corrections(snaps, reference(snaps, scale), scale, now)
    }
}

/// Whether every anchor is within [`EPOCH_LIMIT`].
pub open spec fn epochs_bounded(snaps: Seq<Snapshot>) -> bool {
    forall|i: int|
        0 <= i < snaps.len() ==> -EPOCH_LIMIT <= (#[trigger] snaps[i]).epoch <= EPOCH_LIMIT
}

/// There is one reference anchor only.
pub proof fn lemma_reference_unique(snaps: Seq<Snapshot>, scale: int, r1: int, r2: int)
    requires
        is_reference(snaps, scale, r1),
        is_reference(snaps, scale, r2),
    ensures
        r1 == r2,
{
    let i1 = choose|i: int| is_stable(snaps, i) && (#[trigger] snaps[i]).epoch == r1;
    let i2 = choose|i: int| is_stable(snaps, i) && (#[trigger] snaps[i]).epoch == r2;
    assert(in_band(snaps, scale, snaps[i1].epoch as int));
    assert(in_band(snaps, scale, snaps[i2].epoch as int));
}

/// The most-advanced stable player's anchor.
fn band_floor(snaps: &[Snapshot]) -> (floor: Option<i128>)
    ensures
        floor is Some <==> any_stable(snaps@),
        floor matches Some(f) ==> {
            &&& exists|i: int| is_stable(snaps@, i) && (#[trigger] snaps@[i]).epoch == f
            &&& forall|i: int| is_stable(snaps@, i) ==> f <= (#[trigger] snaps@[i]).epoch
        },
{
    let mut floor: Option<i128> = None;
    let mut i: usize = 0;
    while i < snaps.len()
        invariant
            i <= snaps@.len(),
            floor is None ==> forall|j: int| 0 <= j < i ==> !(#[trigger] snaps@[j]).stable,
            floor matches Some(f) ==> {
                &&& exists|j: int| is_stable(snaps@, j) && (#[trigger] snaps@[j]).epoch == f
                &&& forall|j: int|
                    0 <= j < i && (#[trigger] snaps@[j]).stable ==> f <= snaps@[j].epoch
            },
        decreases snaps@.len() - i,
    {
        let s: Snapshot = snaps[i];
        if s.stable {
            assert(is_stable(snaps@, i as int));
            let lower: bool = match floor {
                Some(f) => s.epoch < f,
                None => true,
            };
            if lower {
                floor = Some(s.epoch);
                assert(snaps@[i as int].epoch == s.epoch);
            }
        }
        i += 1;
    }
    floor
}

/// The most-delayed stable player's anchor that is at most `limit`, or `low`
/// where every such anchor is below that.
fn slowest_within(snaps: &[Snapshot], low: i128, limit: i128) -> (slowest: i128)
    ensures
        low <= slowest,
        slowest == low || exists|i: int|
            is_stable(snaps@, i) && (#[trigger] snaps@[i]).epoch == slowest && slowest <= limit,
        forall|i: int|
            is_stable(snaps@, i) && (#[trigger] snaps@[i]).epoch <= limit ==> snaps@[i].epoch
                <= slowest,
{
    let mut slowest: i128 = low;
    let mut i: usize = 0;
    while i < snaps.len()
        invariant
            i <= snaps@.len(),
            low <= slowest,
            slowest == low || exists|j: int|
                is_stable(snaps@, j) && (#[trigger] snaps@[j]).epoch == slowest && slowest <= limit,
            forall|j: int|
                0 <= j < i && (#[trigger] snaps@[j]).stable && snaps@[j].epoch <= limit
                    ==> snaps@[j].epoch <= slowest,
        decreases snaps@.len() - i,
    {
        let s: Snapshot = snaps[i];
        if s.stable && s.epoch <= limit && s.epoch > slowest {
            slowest = s.epoch;
            assert(is_stable(snaps@, i as int) && snaps@[i as int].epoch == slowest);
        }
        i += 1;
    }
    slowest
}

/// How many milliseconds to correct an error of `size/scale` ms by.
fn nudge_ms(size: i128, scale: u64, cap: u32) -> (ms: u32)
    requires
        scale > 0,
        DEADBAND_MS * scale < size <= 4 * EPOCH_LIMIT,
    ensures
        ms == nudge(size as int, scale as int, cap),
{
    let scale: i128 = scale as i128;
    let amount: i128 = (2 * (size - PAUSE_UNDERSHOOT_MS * scale) + scale) / (2 * scale);
    assert(amount >= 0) by (nonlinear_arith)
        requires
            amount == (2 * (size - 8 * scale) + scale) / (2 * scale),
            size > 10 * scale,
            scale > 0,
    ;
    if amount < cap as i128 {
        amount as u32
    } else {
        cap
    }
}

/// Decide corrections, given every eligible player's anchor.
///
/// The reference is the most-delayed player within [`FOLLOW_MAX_MS`] of the
/// most-advanced one - the slowest *reasonable* room. Players ahead of the
/// reference are paused; players behind it (parked after a stall, beyond the
/// follow band) are skipped forward. Only *stable* players participate: a
/// stalling player's receding anchor is a phantom laggard, and a player
/// mid-measurement-flux shouldn't be nudged on garbage numbers.
pub fn decide_corrections(snaps: &[Snapshot], scale: u64, now: u32) -> (out: Vec<Correction>)
    requires
        scale > 0,
        epochs_bounded(snaps@),
    ensures
        out@ == decided(snaps@, scale as int, now),
{
    let mut out: Vec<Correction> = Vec::new();
    if snaps.len() < 2 {
        return out;
    }
    let floor: i128 = match band_floor(snaps) {
        Some(f) => f,
        None => return out,
    };
    let limit: i128 = floor + FOLLOW_MAX_MS * scale as i128;
    let r: i128 = slowest_within(snaps, floor, limit);
    proof {
        assert forall|e: int| e <= limit implies #[trigger] in_band(
            snaps@,
            scale as int,
            e,
        ) by {}
        assert forall|e: int| #[trigger] in_band(snaps@, scale as int, e) implies e <= limit by {
            let i = choose|i: int| is_stable(snaps@, i) && (#[trigger] snaps@[i]).epoch == floor;
            assert(snaps@[i].epoch == floor);
        }
        assert(in_band(snaps@, scale as int, r as int));
        assert(is_reference(snaps@, scale as int, r as int));
        lemma_reference_unique(
            snaps@,
            scale as int,
            r as int,
            reference(snaps@, scale as int),
        );
    }
    let mut i: usize = 0;
    while i < snaps.len()
        invariant
            i <= snaps@.len(),
            scale > 0,
            epochs_bounded(snaps@),
            -EPOCH_LIMIT <= r <= EPOCH_LIMIT,
            out@ == corrections(snaps@.take(i as int), r as int, scale as int, now),
        decreases snaps@.len() - i,
    {
        let s: Snapshot = snaps[i];
        proof {
            assert(snaps@.take(i + 1).drop_last() =~= snaps@.take(i as int));
            assert(s == snaps@[i as int]);
        }
        i += 1;
        if !s.stable {
            continue;
        }
        if now.wrapping_sub(s.last_correction_ms) < COOLDOWN_MS {
            continue;
        }
        // Positive: ahead of the reference; negative: behind it.
        let error: i128 = r - s.epoch;
        let action: Action = if error > DEADBAND_MS * scale as i128 {
            Action::Pause(nudge_ms(error, scale, MAX_PAUSE_MS))
        } else if -error > DEADBAND_MS * scale as i128 {
            Action::Skip(nudge_ms(-error, scale, MAX_SKIP_MS))
        } else {
            continue;
        };
        out.push(Correction { sid: s.sid, action, error });
    }
    assert(snaps@.take(i as int) =~= snaps@);
    out
}

/// Among the first `n` players, one has the least anchor of the stable ones.
proof fn lemma_least(snaps: Seq<Snapshot>, n: int) -> (least: int)
    requires
        0 <= n <= snaps.len(),
        exists|i: int| i < n && is_stable(snaps, i),
    ensures
        is_stable(snaps, least),
        forall|i: int|
            i < n && is_stable(snaps, i) ==> snaps[least].epoch <= (#[trigger] snaps[i]).epoch,
    decreases n,
{
    if exists|i: int| i < n - 1 && is_stable(snaps, i) {
        let before = lemma_least(snaps, n - 1);
        if is_stable(snaps, n - 1) && snaps[n - 1].epoch < snaps[before].epoch {
            n - 1
        } else {
            before
        }
    } else {
        n - 1
    }
}

/// Among the first `n` players, one has the greatest anchor of the stable ones
/// within the band.
proof fn lemma_greatest(snaps: Seq<Snapshot>, scale: int, n: int) -> (greatest: int)
    requires
        0 <= n <= snaps.len(),
        exists|i: int|
            i < n && is_stable(snaps, i) && in_band(
                snaps,
                scale,
                (#[trigger] snaps[i]).epoch as int,
            ),
    ensures
        is_stable(snaps, greatest),
        in_band(snaps, scale, snaps[greatest].epoch as int),
        forall|i: int|
            i < n && is_stable(snaps, i) && in_band(
                snaps,
                scale,
                (#[trigger] snaps[i]).epoch as int,
            ) ==> snaps[i].epoch <= snaps[greatest].epoch,
    decreases n,
{
    if exists|i: int|
        i < n - 1 && is_stable(snaps, i) && in_band(snaps, scale, (#[trigger] snaps[i]).epoch as int) {
        let before = lemma_greatest(snaps, scale, n - 1);
        if is_stable(snaps, n - 1) && in_band(snaps, scale, snaps[n - 1].epoch as int)
            && snaps[n - 1].epoch > snaps[before].epoch {
            n - 1
        } else {
            before
        }
    } else {
        n - 1
    }
}

/// A group with a stable player has a reference anchor.
pub proof fn lemma_reference_exists(snaps: Seq<Snapshot>, scale: int)
    requires
        any_stable(snaps),
        scale >= 0,
    ensures
        is_reference(snaps, scale, reference(snaps, scale)),
{
    let least = lemma_least(snaps, snaps.len() as int);
    assert(in_band(snaps, scale, snaps[least].epoch as int));
    let greatest = lemma_greatest(snaps, scale, snaps.len() as int);
    assert(is_reference(snaps, scale, snaps[greatest].epoch as int));
}

/// The corrections are those of the single players, and no others.
pub proof fn lemma_corrections_members(
    snaps: Seq<Snapshot>,
    r: int,
    scale: int,
    now: u32,
    c: Correction,
)
    ensures
        corrections(snaps, r, scale, now).contains(c) <==> exists|i: int|
            0 <= i < snaps.len() && correction_of(#[trigger] snaps[i], r, scale, now) == Some(c),
    decreases snaps.len(),
{
    if snaps.len() > 0 {
        let front = snaps.drop_last();
        let given = corrections(front, r, scale, now);
        lemma_corrections_members(front, r, scale, now, c);
        assert(forall|i: int| 0 <= i < front.len() ==> front[i] == snaps[i]);
        assert(snaps.last() == snaps[snaps.len() - 1]);
        let all = corrections(snaps, r, scale, now);
        match correction_of(snaps.last(), r, scale, now) {
            Some(last) => {
                assert(all == given.push(last));
                if given.contains(c) {
                    let k = choose|k: int| 0 <= k < given.len() && given[k] == c;
                    assert(all[k] == c);
                }
                if last == c {
                    assert(all[given.len() as int] == c);
                }
                if all.contains(c) {
                    let k = choose|k: int| 0 <= k < all.len() && all[k] == c;
                    if k < given.len() {
                        assert(given[k] == c);
                    }
                }
            },
            None => {},
        }
        if exists|i: int|
            0 <= i < snaps.len() && correction_of(#[trigger] snaps[i], r, scale, now) == Some(c) {
            let i = choose|i: int|
                0 <= i < snaps.len() && correction_of(#[trigger] snaps[i], r, scale, now) == Some(
                    c,
                );
            if i < front.len() {
                assert(front[i] == snaps[i]);
            }
        }
    }
}

/// Of players with different session ids, the corrections have different ones.
pub proof fn lemma_corrections_apart(
    snaps: Seq<Snapshot>,
    r: int,
    scale: int,
    now: u32,
    i: int,
    j: int,
)
    requires
        forall|a: int, b: int|
            0 <= a < b < snaps.len() ==> (#[trigger] snaps[a]).sid != (#[trigger] snaps[b]).sid,
        0 <= i < j < corrections(snaps, r, scale, now).len(),
    ensures
        corrections(snaps, r, scale, now)[i].sid != corrections(snaps, r, scale, now)[j].sid,
    decreases snaps.len(),
{
    if snaps.len() > 0 {
        let front = snaps.drop_last();
        let given = corrections(front, r, scale, now);
        if j < given.len() {
            lemma_corrections_apart(front, r, scale, now, i, j);
        } else {
            let c = given[i];
            assert(given.contains(c));
            lemma_corrections_members(front, r, scale, now, c);
            let k = choose|k: int|
                0 <= k < front.len() && correction_of(#[trigger] front[k], r, scale, now) == Some(
                    c,
                );
            assert(snaps[k].sid != snaps[snaps.len() - 1].sid);
        }
    }
}

/// A pause is for a player that is ahead, a skip for one that is behind; either
/// is at least 2 ms long and within its cap, and never overshoots: the player
/// stays on the side of the reference where it was.
pub proof fn law_corrections_never_overshoot(error: int, scale: int)
    requires
        scale > 0,
    ensures
        match action_for(error, scale) {
            Some(Action::Pause(ms)) => {
                &&& 2 <= ms <= MAX_PAUSE_MS
                &&& error > ms * scale
            },
            Some(Action::Skip(ms)) => {
                &&& 2 <= ms <= MAX_SKIP_MS
                &&& -error > ms * scale
            },
            None => -DEADBAND_MS * scale <= error <= DEADBAND_MS * scale,
        },
{
    if error > DEADBAND_MS * scale {
        lemma_nudge(error, scale, MAX_PAUSE_MS);
    } else if -error > DEADBAND_MS * scale {
        lemma_nudge(-error, scale, MAX_SKIP_MS);
    }
}

/// Undershooting lands the correction inside the deadband: where the cap does
/// not cut it short, a player that has carried out its correction is due no
/// other.
pub proof fn law_uncapped_correction_lands_in_deadband(error: int, scale: int)
    requires
        scale > 0,
    ensures
        match action_for(error, scale) {
            Some(Action::Pause(ms)) => ms < MAX_PAUSE_MS ==> action_for(error - ms * scale, scale)
                is None,
            Some(Action::Skip(ms)) => ms < MAX_SKIP_MS ==> action_for(error + ms * scale, scale)
                is None,
            None => true,
        },
{
    if error > DEADBAND_MS * scale {
        lemma_nudge(error, scale, MAX_PAUSE_MS);
    } else if -error > DEADBAND_MS * scale {
        lemma_nudge(-error, scale, MAX_SKIP_MS);
    }
}

/// The error that is left of an error of `error/scale` ms once its player has
/// carried out the correction that it calls for.
pub open spec fn after_correction(error: int, scale: int) -> int {
    match action_for(error, scale) {
        Some(Action::Pause(ms)) => error - ms * scale,
        Some(Action::Skip(ms)) => error + ms * scale,
        None => error,
    }
}

/// The error that is left after so many rounds.
pub open spec fn after_rounds(error: int, scale: int, rounds: nat) -> int
    decreases rounds,
{
    if rounds == 0 {
        error
    } else {
        after_correction(after_rounds(error, scale, (rounds - 1) as nat), scale)
    }
}

/// Errors that are too large for one correction converge over successive
/// rounds: after no more rounds than the longest pause fits into the error, and
/// one where it does not fit evenly, the player is due no correction.
pub proof fn law_large_errors_converge(error: int, scale: int, rounds: nat)
    requires
        scale > 0,
        -(rounds * (MAX_PAUSE_MS * scale)) <= error <= rounds * (MAX_PAUSE_MS * scale),
    ensures
        action_for(after_rounds(error, scale, rounds), scale) is None,
{
    lemma_after_rounds(error, scale, rounds);
}

/// How large an error is.
pub open spec fn size_of(error: int) -> int {
    if error < 0 {
        -error
    } else {
        error
    }
}

/// A correction takes at least the longest pause off an error, or leaves it
/// within the deadband.
proof fn lemma_after_correction(error: int, scale: int)
    requires
        scale > 0,
    ensures
        size_of(after_correction(error, scale)) <= DEADBAND_MS * scale || size_of(
            after_correction(error, scale),
        ) <= size_of(error) - MAX_PAUSE_MS * scale,
{
    if error > DEADBAND_MS * scale {
        lemma_nudge(error, scale, MAX_PAUSE_MS);
    } else if -error > DEADBAND_MS * scale {
        lemma_nudge(-error, scale, MAX_SKIP_MS);
    }
}

/// Every round takes the longest pause off the error, until it is within the
/// deadband.
proof fn lemma_after_rounds(error: int, scale: int, rounds: nat)
    requires
        scale > 0,
    ensures
        size_of(after_rounds(error, scale, rounds)) <= DEADBAND_MS * scale || size_of(
            after_rounds(error, scale, rounds),
        ) <= size_of(error) - rounds * (MAX_PAUSE_MS * scale),
    decreases rounds,
{
    let step = MAX_PAUSE_MS * scale;
    if rounds == 0 {
        assert(rounds * step == 0) by (nonlinear_arith)
            requires
                rounds == 0,
        ;
    } else {
        let before = (rounds - 1) as nat;
        let e = after_rounds(error, scale, before);
        lemma_after_rounds(error, scale, before);
        lemma_after_correction(e, scale);
        assert(rounds * step == before * step + step) by (nonlinear_arith)
            requires
                rounds == before + 1,
        ;
    }
}

/// The amount of a correction, compared with the error it answers.
proof fn lemma_nudge(size: int, scale: int, cap: u32)
    requires
        scale > 0,
        size > DEADBAND_MS * scale,
        cap >= 2,
    ensures
        2 <= nudge(size, scale, cap) <= cap,
        nudge(size, scale, cap) * scale < size,
        nudge(size, scale, cap) < cap ==> size - nudge(size, scale, cap) * scale <= DEADBAND_MS
            * scale,
{
    let amount = rounded(size - 8 * scale, scale);
    let n = 2 * (size - 8 * scale) + scale;
    assert(2 <= amount && amount * (2 * scale) <= n < (amount + 1) * (2 * scale))
        by (nonlinear_arith)
        requires
            amount == n / (2 * scale),
            n == 2 * (size - 8 * scale) + scale,
            size > 10 * scale,
            scale > 0,
    ;
    let ms = nudge(size, scale, cap);
    assert(ms <= amount);
    assert(ms * scale <= amount * scale) by (nonlinear_arith)
        requires
            ms <= amount,
            scale > 0,
    ;
    assert(amount * (2 * scale) == 2 * (amount * scale)) by (nonlinear_arith);
    assert((amount + 1) * (2 * scale) == 2 * (amount * scale) + 2 * scale) by (nonlinear_arith);
}

/// Who is corrected: exactly the stable players off their cooldown whose error
/// against the reference exceeds the deadband, each by what its own error
/// calls for.
pub proof fn law_who_is_corrected(snaps: Seq<Snapshot>, scale: int, now: u32, c: Correction)
    requires
        snaps.len() >= 2,
        any_stable(snaps),
    ensures
        decided(snaps, scale, now).contains(c) <==> exists|i: int|
            0 <= i < snaps.len() && correction_of(
                #[trigger] snaps[i],
                reference(snaps, scale),
                scale,
                now,
            ) == Some(c),
{
    lemma_corrections_members(snaps, reference(snaps, scale), scale, now, c);
}

/// Nothing is decided for a player on its own.
pub proof fn law_single_player_never_corrected(s: Snapshot, scale: int, now: u32)
    ensures
        decided(seq![s], scale, now).len() == 0,
{
}

/// No number of co-stalled players can drag the group down: the reference is
/// the anchor of a stable player, and never more than the follow band behind
/// any stable player, the most-advanced one among them.
pub proof fn law_band_is_anchored_at_the_leader(snaps: Seq<Snapshot>, scale: int, i: int)
    requires
        scale > 0,
        is_stable(snaps, i),
    ensures
        reference(snaps, scale) <= snaps[i].epoch + FOLLOW_MAX_MS * scale,
        exists|j: int|
            is_stable(snaps, j) && (#[trigger] snaps[j]).epoch == reference(snaps, scale),
{
    lemma_reference_exists(snaps, scale);
}

/// The player that the group aligns to is left untouched.
pub proof fn law_reference_player_untouched(snaps: Seq<Snapshot>, scale: int, now: u32, i: int)
    requires
        scale > 0,
        is_stable(snaps, i),
        snaps[i].epoch == reference(snaps, scale),
    ensures
        correction_of(snaps[i], reference(snaps, scale), scale, now) is None,
{
}

/// A player parked beyond the follow band is never waited for: it is never
/// told to pause, and, off its cooldown and outside the deadband, it is told to
/// skip forward.
pub proof fn law_parked_player_is_skipped_forward(
    snaps: Seq<Snapshot>,
    scale: int,
    now: u32,
    i: int,
)
    requires
        scale > 0,
        is_stable(snaps, i),
        !in_band(snaps, scale, snaps[i].epoch as int),
    ensures
        match correction_of(snaps[i], reference(snaps, scale), scale, now) {
            Some(c) => c.action is Skip,
            None => elapsed_ms(now, snaps[i].last_correction_ms) < COOLDOWN_MS || snaps[i].epoch
                - reference(snaps, scale) <= DEADBAND_MS * scale,
        },
{
    lemma_reference_exists(snaps, scale);
    let j = choose|j: int|
        is_stable(snaps, j) && snaps[i].epoch > (#[trigger] snaps[j]).epoch + FOLLOW_MAX_MS * scale;
    assert(reference(snaps, scale) <= snaps[j].epoch + FOLLOW_MAX_MS * scale);
}

/// A group whose stable players are all within the deadband of each other is
/// left alone.
pub proof fn law_aligned_group_is_left_alone(snaps: Seq<Snapshot>, scale: int, now: u32)
    requires
        scale > 0,
        forall|i: int, j: int|
            is_stable(snaps, i) && is_stable(snaps, j) ==> (#[trigger] snaps[i]).epoch - (
            #[trigger] snaps[j]).epoch <= DEADBAND_MS * scale,
    ensures
        decided(snaps, scale, now).len() == 0,
{
    if snaps.len() >= 2 && any_stable(snaps) {
        lemma_reference_exists(snaps, scale);
        let r = reference(snaps, scale);
        let all = decided(snaps, scale, now);
        let k = choose|k: int| is_stable(snaps, k) && (#[trigger] snaps[k]).epoch == r;
        if all.len() > 0 {
            let c = all[0];
            assert(all.contains(c));
            lemma_corrections_members(snaps, r, scale, now, c);
            let i = choose|i: int|
                0 <= i < snaps.len() && correction_of(#[trigger] snaps[i], r, scale, now) == Some(
                    c,
                );
            assert(is_stable(snaps, i));
            assert(snaps[i].epoch - snaps[k].epoch <= DEADBAND_MS * scale);
            assert(snaps[k].epoch - snaps[i].epoch <= DEADBAND_MS * scale);
        }
    }
}

/// Whether `s` is one of the stable players.
pub open spec fn has_stable(snaps: Seq<Snapshot>, s: Snapshot) -> bool {
    exists|i: int| is_stable(snaps, i) && #[trigger] snaps[i] == s
}

/// Two lists of players have the same stable players.
pub open spec fn same_stable(a: Seq<Snapshot>, b: Seq<Snapshot>) -> bool {
    forall|s: Snapshot| #[trigger] has_stable(a, s) == has_stable(b, s)
}

/// Only stable players have a say, and the order in which players are listed
/// has none: two groups with the same stable players are given the same
/// corrections.
pub proof fn law_only_stable_players_count(
    a: Seq<Snapshot>,
    b: Seq<Snapshot>,
    scale: int,
    now: u32,
    c: Correction,
)
    requires
        scale > 0,
        same_stable(a, b),
    ensures
        decided(a, scale, now).contains(c) == decided(b, scale, now).contains(c),
{
    lemma_same_stable_one_way(a, b, scale, now, c);
    lemma_same_stable_one_way(b, a, scale, now, c);
}

proof fn lemma_same_stable_one_way(
    a: Seq<Snapshot>,
    b: Seq<Snapshot>,
    scale: int,
    now: u32,
    c: Correction,
)
    requires
        scale > 0,
        same_stable(a, b),
    ensures
        decided(a, scale, now).contains(c) ==> decided(b, scale, now).contains(c),
{
    if decided(a, scale, now).contains(c) {
        let i0 = choose|i: int| is_stable(a, i);
        let j0 = lemma_counterpart(a, b, i0);
        lemma_reference_exists(a, scale);
        lemma_reference_exists(b, scale);
        lemma_same_reference(a, b, scale);
        let r = reference(a, scale);
        lemma_corrections_members(a, r, scale, now, c);
        lemma_corrections_members(b, r, scale, now, c);
        let i = choose|i: int|
            0 <= i < a.len() && correction_of(#[trigger] a[i], r, scale, now) == Some(c);
        let j = lemma_counterpart(a, b, i);
        assert(correction_of(b[j], r, scale, now) == Some(c));
        lemma_corrected_player_has_company(b, r, scale, now, j);
    }
}

/// A player that is off the reference anchor is not the only one.
proof fn lemma_corrected_player_has_company(
    snaps: Seq<Snapshot>,
    r: int,
    scale: int,
    now: u32,
    i: int,
)
    requires
        scale > 0,
        is_reference(snaps, scale, r),
        is_stable(snaps, i),
        correction_of(snaps[i], r, scale, now) is Some,
    ensures
        snaps.len() >= 2,
{
    let k = choose|k: int| is_stable(snaps, k) && (#[trigger] snaps[k]).epoch == r;
    assert(snaps[i].epoch != r);
}

/// The stable players, in their order.
pub open spec fn stable_only(snaps: Seq<Snapshot>) -> Seq<Snapshot>
    decreases snaps.len(),
{
    if snaps.len() == 0 {
        Seq::empty()
    } else if snaps.last().stable {
        stable_only(snaps.drop_last()).push(snaps.last())
    } else {
        stable_only(snaps.drop_last())
    }
}

/// Players that are not stable might as well not be there: without them the
/// same corrections are decided, in the same order.
pub proof fn law_unstable_players_are_passed_over(snaps: Seq<Snapshot>, scale: int, now: u32)
    requires
        scale > 0,
    ensures
        decided(stable_only(snaps), scale, now) == decided(snaps, scale, now),
{
    let rest = stable_only(snaps);
    lemma_stable_only(snaps);
    if any_stable(snaps) {
        let i = choose|i: int| is_stable(snaps, i);
        let j = lemma_counterpart(snaps, rest, i);
        lemma_reference_exists(snaps, scale);
        lemma_reference_exists(rest, scale);
        lemma_same_reference(snaps, rest, scale);
        let r = reference(snaps, scale);
        lemma_stable_only_corrections(snaps, r, scale, now);
        if rest.len() < 2 {
            assert(rest =~= seq![rest[0]]);
            assert(corrections(rest.drop_last(), r, scale, now).len() == 0);
            assert(corrections(rest, r, scale, now) =~= Seq::<Correction>::empty());
        }
    } else if any_stable(rest) {
        let j = choose|j: int| is_stable(rest, j);
        let i = lemma_counterpart(rest, snaps, j);
    }
}

/// The stable players of a list are those of the list without the others.
proof fn lemma_stable_only(snaps: Seq<Snapshot>)
    ensures
        same_stable(snaps, stable_only(snaps)),
        stable_only(snaps).len() <= snaps.len(),
    decreases snaps.len(),
{
    if snaps.len() > 0 {
        let front = snaps.drop_last();
        let last = snaps.last();
        lemma_stable_only(front);
        assert forall|s: Snapshot| #[trigger]
            has_stable(snaps, s) == has_stable(stable_only(snaps), s) by {
            lemma_has_stable_split(snaps, s);
            if last.stable {
                lemma_has_stable_split(stable_only(snaps), s);
                assert(stable_only(snaps).drop_last() =~= stable_only(front));
            }
            assert(has_stable(front, s) == has_stable(stable_only(front), s));
        }
    }
}

/// A stable player of a list is its last one, or one of those before.
proof fn lemma_has_stable_split(snaps: Seq<Snapshot>, s: Snapshot)
    requires
        snaps.len() > 0,
    ensures
        has_stable(snaps, s) == (has_stable(snaps.drop_last(), s) || (snaps.last().stable
            && snaps.last() == s)),
{
    let front = snaps.drop_last();
    let n = front.len() as int;
    if has_stable(front, s) {
        let i = choose|i: int| is_stable(front, i) && #[trigger] front[i] == s;
        assert(is_stable(snaps, i) && snaps[i] == s);
    }
    if snaps.last().stable && snaps.last() == s {
        assert(is_stable(snaps, n) && snaps[n] == s);
    }
    if has_stable(snaps, s) {
        let i = choose|i: int| is_stable(snaps, i) && #[trigger] snaps[i] == s;
        if i < n {
            assert(is_stable(front, i) && front[i] == s);
        }
    }
}

/// Players that are not stable are given no correction.
proof fn lemma_stable_only_corrections(snaps: Seq<Snapshot>, r: int, scale: int, now: u32)
    ensures
        corrections(stable_only(snaps), r, scale, now) == corrections(snaps, r, scale, now),
    decreases snaps.len(),
{
    if snaps.len() > 0 {
        lemma_stable_only_corrections(snaps.drop_last(), r, scale, now);
        if snaps.last().stable {
            assert(stable_only(snaps).drop_last() =~= stable_only(snaps.drop_last()));
        }
    }
}

/// A stable player of one list is found in the other.
proof fn lemma_counterpart(a: Seq<Snapshot>, b: Seq<Snapshot>, i: int) -> (j: int)
    requires
        same_stable(a, b),
        is_stable(a, i),
    ensures
        is_stable(b, j),
        b[j] == a[i],
{
    assert(has_stable(a, a[i]));
    assert(has_stable(b, a[i]));
    choose|j: int| is_stable(b, j) && #[trigger] b[j] == a[i]
}

proof fn lemma_same_reference(a: Seq<Snapshot>, b: Seq<Snapshot>, scale: int)
    requires
        same_stable(a, b),
        is_reference(a, scale, reference(a, scale)),
        is_reference(b, scale, reference(b, scale)),
    ensures
        reference(a, scale) == reference(b, scale),
{
    assert forall|e: int| #[trigger] in_band(a, scale, e) implies in_band(b, scale, e) by {
        assert forall|j: int| is_stable(b, j) implies e <= (#[trigger] b[j]).epoch + FOLLOW_MAX_MS
            * scale by {
            let i = lemma_counterpart(b, a, j);
            assert(e <= a[i].epoch + FOLLOW_MAX_MS * scale);
        }
    }
    assert forall|e: int| #[trigger] in_band(b, scale, e) implies in_band(a, scale, e) by {
        assert forall|i: int| is_stable(a, i) implies e <= (#[trigger] a[i]).epoch + FOLLOW_MAX_MS
            * scale by {
            let j = lemma_counterpart(a, b, i);
            assert(e <= b[j].epoch + FOLLOW_MAX_MS * scale);
        }
    }
    let r = reference(a, scale);
    let i = choose|i: int| is_stable(a, i) && (#[trigger] a[i]).epoch == r;
    let j = lemma_counterpart(a, b, i);
    assert(b[j].epoch == r);
    assert forall|k: int|
        is_stable(b, k) && in_band(b, scale, (#[trigger] b[k]).epoch as int) implies b[k].epoch
        <= r by {
        let l = lemma_counterpart(b, a, k);
        assert(in_band(a, scale, a[l].epoch as int));
    }
    assert(is_reference(b, scale, r));
    lemma_reference_unique(b, scale, r, reference(b, scale));
}

/// The players of a group with every anchor moved by `by`.
pub open spec fn shifted(snaps: Seq<Snapshot>, by: int) -> Seq<Snapshot> {
    snaps.map_values(|s: Snapshot| Snapshot { epoch: (s.epoch + by) as i128, ..s })
}

/// Only the differences between anchors count: moving every anchor by the same
/// amount (another clock base, another origin of the stream) changes nothing.
pub proof fn law_only_differences_count(snaps: Seq<Snapshot>, by: int, scale: int, now: u32)
    requires
        scale > 0,
        forall|i: int|
            0 <= i < snaps.len() ==> i128::MIN <= (#[trigger] snaps[i]).epoch + by <= i128::MAX,
    ensures
        decided(shifted(snaps, by), scale, now) == decided(snaps, scale, now),
{
    let moved = shifted(snaps, by);
    assert forall|i: int| 0 <= i < snaps.len() implies (#[trigger] moved[i]).epoch
        == snaps[i].epoch + by && is_stable(moved, i) == is_stable(snaps, i) by {}
    if snaps.len() >= 2 {
        if any_stable(snaps) {
            let w = choose|i: int| is_stable(snaps, i);
            assert(is_stable(moved, w));
            lemma_reference_exists(snaps, scale);
            let r = reference(snaps, scale);
            let i0 = choose|i: int| is_stable(snaps, i) && (#[trigger] snaps[i]).epoch == r;
            assert forall|e: int| #[trigger] in_band(snaps, scale, e) implies in_band(
                moved,
                scale,
                e + by,
            ) by {
                assert forall|j: int| is_stable(moved, j) implies e + by <= (
                #[trigger] moved[j]).epoch + FOLLOW_MAX_MS * scale by {
                    assert(is_stable(snaps, j));
                    assert(e <= snaps[j].epoch + FOLLOW_MAX_MS * scale);
                }
            }
            assert forall|i: int|
                is_stable(moved, i) && in_band(
                    moved,
                    scale,
                    (#[trigger] moved[i]).epoch as int,
                ) implies moved[i].epoch <= r + by by {
                assert(is_stable(snaps, i));
                assert(in_band(snaps, scale, snaps[i].epoch as int)) by {
                    assert forall|j: int| is_stable(snaps, j) implies snaps[i].epoch <= (
                    #[trigger] snaps[j]).epoch + FOLLOW_MAX_MS * scale by {
                        assert(is_stable(moved, j));
                        assert(moved[i].epoch <= moved[j].epoch + FOLLOW_MAX_MS * scale);
                    }
                }
            }
            assert(is_stable(moved, i0) && moved[i0].epoch == r + by);
            assert(in_band(moved, scale, r + by));
            assert(is_reference(moved, scale, r + by));
            lemma_reference_unique(moved, scale, r + by, reference(moved, scale));
            lemma_shifted_corrections(snaps, by, r, scale, now);
        } else {
            assert forall|i: int| !is_stable(moved, i) by {
                assert(!is_stable(snaps, i));
            }
        }
    }
}

proof fn lemma_shifted_corrections(snaps: Seq<Snapshot>, by: int, r: int, scale: int, now: u32)
    requires
        forall|i: int|
            0 <= i < snaps.len() ==> i128::MIN <= (#[trigger] snaps[i]).epoch + by <= i128::MAX,
    ensures
        corrections(shifted(snaps, by), r + by, scale, now) == corrections(snaps, r, scale, now),
    decreases snaps.len(),
{
    if snaps.len() > 0 {
        assert(shifted(snaps, by).drop_last() =~= shifted(snaps.drop_last(), by));
        assert forall|i: int| 0 <= i < snaps.drop_last().len() implies i128::MIN <= (
        #[trigger] snaps.drop_last()[i]).epoch + by <= i128::MAX by {
            assert(snaps.drop_last()[i] == snaps[i]);
        }
        lemma_shifted_corrections(snaps.drop_last(), by, r, scale, now);
        assert(snaps.last() == snaps[snaps.len() - 1]);
        assert(shifted(snaps, by).last().epoch == snaps.last().epoch + by);
    }
}

/// A pause has fully played out before the player is judged again: within the
/// length of the longest pause after a correction, no other is due.
pub proof fn law_cooldown_outlasts_any_pause(s: Snapshot, r: int, scale: int, now: u32)
    requires
        elapsed_ms(now, s.last_correction_ms) <= MAX_PAUSE_MS,
    ensures
        correction_of(s, r, scale, now) is None,
{
}

/// How long a correction is: the error less the 8 ms of the undershoot, to the
/// nearest millisecond (halves upward), cut to 1000 ms for a pause and to 2000
/// ms for a skip. There is one for an error of more than 10 ms, a pause where
/// the player is ahead and a skip where it is behind, and none for any other.
pub proof fn law_correction_is_as_long_as_the_error(error: int, scale: int)
    requires
        scale > 0,
    ensures
        match action_for(error, scale) {
            Some(Action::Pause(ms)) => {
                &&& error > 10 * scale
                &&& 2 * (ms * scale) <= 2 * (error - 8 * scale) + scale
                &&& ms < 1000 ==> 2 * (ms * scale) > 2 * (error - 8 * scale) - scale
                &&& ms <= 1000
            },
            Some(Action::Skip(ms)) => {
                &&& -error > 10 * scale
                &&& 2 * (ms * scale) <= 2 * (-error - 8 * scale) + scale
                &&& ms < 2000 ==> 2 * (ms * scale) > 2 * (-error - 8 * scale) - scale
                &&& ms <= 2000
            },
            None => -10 * scale <= error <= 10 * scale,
        },
{
    if error > 10 * scale {
        lemma_nudge_is_nearest(error, scale, 1000);
    } else if -error > 10 * scale {
        lemma_nudge_is_nearest(-error, scale, 2000);
    }
}

/// A correction is as long as the error less the undershoot, or as its cap.
proof fn lemma_nudge_is_nearest(size: int, scale: int, cap: u32)
    requires
        scale > 0,
        size > 10 * scale,
    ensures
        ({
            let ms = nudge(size, scale, cap);
            &&& ms <= cap
            &&& 2 * (ms * scale) <= 2 * (size - 8 * scale) + scale
            &&& ms < cap ==> 2 * (ms * scale) > 2 * (size - 8 * scale) - scale
        }),
{
    let n = 2 * (size - 8 * scale) + scale;
    let amount = n / (2 * scale);
    let ms = nudge(size, scale, cap);
    assert(0 <= amount && amount * (2 * scale) <= n < (amount + 1) * (2 * scale))
        by (nonlinear_arith)
        requires
            amount == n / (2 * scale),
            n >= 0,
            scale > 0,
    ;
    assert(amount == rounded(size - 8 * scale, scale));
    assert(ms <= amount);
    assert(2 * (ms * scale) <= amount * (2 * scale)) by (nonlinear_arith)
        requires
            ms <= amount,
            scale > 0,
    ;
    if ms < cap {
        assert(ms == amount);
        assert((amount + 1) * (2 * scale) == 2 * (amount * scale) + 2 * scale) by (nonlinear_arith);
    }
}

/// Whether `c` is the correction that a player is due against the anchor `r`: it
/// is stable, was not corrected within the last 3000 ms of the wrapping server
/// clock, and is off by more than 10 ms.
pub open spec fn due(c: Correction, s: Snapshot, r: int, scale: int, now: u32) -> bool {
    &&& s.stable
    &&& s.last_correction_ms <= now ==> now - s.last_correction_ms >= 3000
    &&& s.last_correction_ms > now ==> now + 0x1_0000_0000 - s.last_correction_ms >= 3000
    &&& c.sid == s.sid
    &&& c.error == r - s.epoch
    &&& c.error > 10 * scale || c.error < -10 * scale
    &&& match c.action {
        Action::Pause(ms) => {
            &&& c.error > 0
            &&& ms <= 1000
            &&& 2 * (ms * scale) <= 2 * (c.error - 8 * scale) + scale
            &&& ms < 1000 ==> 2 * (ms * scale) > 2 * (c.error - 8 * scale) - scale
        },
        Action::Skip(ms) => {
            &&& c.error < 0
            &&& ms <= 2000
            &&& 2 * (ms * scale) <= 2 * (-c.error - 8 * scale) + scale
            &&& ms < 2000 ==> 2 * (ms * scale) > 2 * (-c.error - 8 * scale) - scale
        },
    }
}

/// A player is due one correction at most.
proof fn lemma_due_is_unique(a: Correction, b: Correction, s: Snapshot, r: int, scale: int, now: u32)
    requires
        scale > 0,
        due(a, s, r, scale, now),
        due(b, s, r, scale, now),
    ensures
        a == b,
{
    let m: int = match a.action {
        Action::Pause(ms) => ms as int,
        Action::Skip(ms) => ms as int,
    };
    let n: int = match b.action {
        Action::Pause(ms) => ms as int,
        Action::Skip(ms) => ms as int,
    };
    let size = size_of(a.error as int);
    let cap: int = if a.error > 0 { 1000 } else { 2000 };
    assert(m == n) by (nonlinear_arith)
        requires
            scale > 0,
            m <= cap,
            n <= cap,
            2 * (m * scale) <= 2 * (size - 8 * scale) + scale,
            2 * (n * scale) <= 2 * (size - 8 * scale) + scale,
            m < cap ==> 2 * (m * scale) > 2 * (size - 8 * scale) - scale,
            n < cap ==> 2 * (n * scale) > 2 * (size - 8 * scale) - scale,
    ;
}

/// What a player is due is what is decided for it.
proof fn lemma_due(c: Correction, s: Snapshot, r: int, scale: int, now: u32)
    requires
        scale > 0,
        i128::MIN <= r - s.epoch <= i128::MAX,
    ensures
        due(c, s, r, scale, now) <==> correction_of(s, r, scale, now) == Some(c),
{
    let error = r - s.epoch;
    law_correction_is_as_long_as_the_error(error, scale);
    match correction_of(s, r, scale, now) {
        Some(d) => {
            assert(due(d, s, r, scale, now));
            if due(c, s, r, scale, now) {
                lemma_due_is_unique(c, d, s, r, scale, now);
            }
        },
        None => {},
    }
}

/// What is decided: where `r` is the anchor of the slowest stable player that is
/// no more than 1500 ms behind any other, exactly the corrections that players
/// are due against it.
pub proof fn law_decided_is_what_is_due(
    snaps: Seq<Snapshot>,
    r: int,
    scale: int,
    now: u32,
    c: Correction,
)
    requires
        scale > 0,
        epochs_bounded(snaps),
        exists|i: int| 0 <= i < snaps.len() && (#[trigger] snaps[i]).stable && snaps[i].epoch == r,
        forall|i: int|
            0 <= i < snaps.len() && (#[trigger] snaps[i]).stable ==> r <= snaps[i].epoch + 1500
                * scale,
        forall|i: int|
            0 <= i < snaps.len() && (#[trigger] snaps[i]).stable && snaps[i].epoch > r ==> exists|
                j: int,
            |
                0 <= j < snaps.len() && (#[trigger] snaps[j]).stable && snaps[i].epoch
                    > snaps[j].epoch + 1500 * scale,
    ensures
        decided(snaps, scale, now).contains(c) <==> exists|i: int|
            0 <= i < snaps.len() && due(c, #[trigger] snaps[i], r, scale, now),
{
    let k = choose|i: int|
        0 <= i < snaps.len() && (#[trigger] snaps[i]).stable && snaps[i].epoch == r;
    assert(is_stable(snaps, k) && snaps[k].epoch == r);
    assert(in_band(snaps, scale, r));
    assert forall|i: int|
        is_stable(snaps, i) && in_band(
            snaps,
            scale,
            (#[trigger] snaps[i]).epoch as int,
        ) implies snaps[i].epoch <= r by {
        if snaps[i].epoch > r {
            let j = choose|j: int|
                0 <= j < snaps.len() && (#[trigger] snaps[j]).stable && snaps[i].epoch
                    > snaps[j].epoch + 1500 * scale;
            assert(is_stable(snaps, j));
        }
    }
    assert(is_reference(snaps, scale, r));
    lemma_reference_exists(snaps, scale);
    lemma_reference_unique(snaps, scale, r, reference(snaps, scale));
    lemma_corrections_members(snaps, r, scale, now, c);
    if exists|i: int| 0 <= i < snaps.len() && due(c, #[trigger] snaps[i], r, scale, now) {
        let i = choose|i: int| 0 <= i < snaps.len() && due(c, #[trigger] snaps[i], r, scale, now);
        lemma_due(c, snaps[i], r, scale, now);
        assert(i != k);
    }
    if decided(snaps, scale, now).contains(c) {
        let i = choose|i: int|
            0 <= i < snaps.len() && correction_of(#[trigger] snaps[i], r, scale, now) == Some(c);
        lemma_due(c, snaps[i], r, scale, now);
    }
}

} // verus!
