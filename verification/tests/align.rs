use squeezed::align::{
    decide_corrections, Action, Correction, Snapshot, MAX_PAUSE_MS, MAX_SKIP_MS,
};

// Anchors in whole milliseconds.
fn decide(snaps: &[Snapshot], now: u32) -> Vec<Correction> {
    decide_corrections(snaps, 1, now)
}

fn snap(sid: u64, epoch: i128, last_corr: u32) -> Snapshot {
    Snapshot { sid, epoch, stable: true, last_correction_ms: last_corr }
}

fn unstable(sid: u64, epoch: i128) -> Snapshot {
    Snapshot { sid, epoch, stable: false, last_correction_ms: 0 }
}

fn pause_of(c: &Correction) -> u32 {
    match c.action {
        Action::Pause(ms) => ms,
        Action::Skip(_) => panic!("expected a pause, got a skip"),
    }
}

fn skip_of(c: &Correction) -> u32 {
    match c.action {
        Action::Skip(ms) => ms,
        Action::Pause(_) => panic!("expected a skip, got a pause"),
    }
}

#[test]
fn single_player_never_corrected() {
    let snaps = vec![snap(1, 1000, 0)];
    assert!(decide(&snaps, 100_000).is_empty());
}

#[test]
fn ahead_player_pauses_by_error_and_laggard_untouched() {
    // 1's epoch is 50ms smaller => 1 is 50ms ahead of the laggard (2).
    let snaps = vec![snap(1, 1000, 0), snap(2, 1050, 0)];
    let d = decide(&snaps, 100_000);
    assert_eq!(d.len(), 1);
    assert_eq!(d[0].sid, 1);
    assert_eq!(pause_of(&d[0]), 42); // error minus the undershoot
}

#[test]
fn within_deadband_no_correction() {
    let snaps = vec![snap(1, 1000, 0), snap(2, 1005, 0)];
    assert!(decide(&snaps, 100_000).is_empty());
}

#[test]
fn cooldown_suppresses_repeat() {
    // 1 ahead by 50ms but corrected 500ms ago (< COOLDOWN) => suppressed.
    let now = 100_000;
    let snaps = vec![snap(1, 1000, now - 500), snap(2, 1050, 0)];
    assert!(decide(&snaps, now).is_empty());
}

#[test]
fn large_error_capped() {
    // 2 is the in-band laggard 1400ms behind 1; 1's pause is capped.
    let snaps = vec![snap(1, 0, 0), snap(2, 1400, 0)];
    let d = decide(&snaps, 100_000);
    assert_eq!(d.len(), 1);
    assert_eq!(pause_of(&d[0]), MAX_PAUSE_MS);
}

#[test]
fn three_players_two_ahead_of_the_laggard() {
    let snaps = vec![
        snap(1, 1000, 0), // 80ms ahead
        snap(2, 1050, 0), // 30ms ahead
        snap(3, 1080, 0), // laggard (reference)
    ];
    let d = decide(&snaps, 100_000);
    assert_eq!(d.len(), 2);
    let by_sid: std::collections::HashMap<_, _> = d.iter().map(|x| (x.sid, pause_of(x))).collect();
    assert_eq!(by_sid[&1], 72);
    assert_eq!(by_sid[&2], 22);
}

#[test]
fn parked_player_is_skipped_forward_not_followed() {
    // 3 is 20s behind - parked after a stall, far beyond the follow band.
    // The group aligns to the in-band laggard (2); 3 is skipped forward.
    let snaps = vec![snap(1, 1000, 0), snap(2, 1050, 0), snap(3, 21_050, 0)];
    let d = decide(&snaps, 100_000);
    assert_eq!(d.len(), 2);
    let one = d.iter().find(|x| x.sid == 1).unwrap();
    let three = d.iter().find(|x| x.sid == 3).unwrap();
    assert_eq!(pause_of(one), 42);
    assert_eq!(skip_of(three), MAX_SKIP_MS);
}

#[test]
fn two_players_parked_one_gets_skipped_home() {
    // The healthy player is never dragged down; the parked one skips up.
    let snaps = vec![snap(1, 1000, 0), snap(2, 4000, 0)];
    let d = decide(&snaps, 100_000);
    assert_eq!(d.len(), 1);
    assert_eq!(d[0].sid, 2);
    assert_eq!(skip_of(&d[0]), MAX_SKIP_MS);
}

#[test]
fn co_stalled_pair_cannot_drag_the_band_down() {
    // 3 and 4 parked together, corroborating each other - the band is
    // anchored at the most-advanced player, so they are still outliers:
    // both get skipped forward, and the healthy pair syncs among itself.
    let snaps = vec![snap(1, 1000, 0), snap(2, 1050, 0), snap(3, 10_000, 0), snap(4, 10_100, 0)];
    let d = decide(&snaps, 100_000);
    assert_eq!(d.len(), 3);
    let by_sid: std::collections::HashMap<_, _> = d.iter().map(|x| (x.sid, x)).collect();
    assert_eq!(pause_of(by_sid[&1]), 42);
    assert_eq!(skip_of(by_sid[&3]), MAX_SKIP_MS);
    assert_eq!(skip_of(by_sid[&4]), MAX_SKIP_MS);
}

#[test]
fn stalling_players_never_anchor_the_group() {
    // 3 and 4 are mid-stall (anchors still receding): no reference role,
    // no corrections - wait until they stabilize, then skip them home.
    let snaps = vec![snap(1, 1000, 0), snap(2, 1050, 0), unstable(3, 10_000), unstable(4, 10_100)];
    let d = decide(&snaps, 100_000);
    assert_eq!(d.len(), 1);
    assert_eq!(d[0].sid, 1);
    assert_eq!(pause_of(&d[0]), 42);
}

#[test]
fn no_stable_players_no_corrections() {
    let snaps = vec![unstable(1, 1000), unstable(2, 2000)];
    assert!(decide(&snaps, 100_000).is_empty());
}

#[test]
fn fractions_round_to_the_nearest_millisecond() {
    // In tenths of a millisecond: 50.4 ms and 50.5 ms ahead.
    let d = decide_corrections(&[snap(1, 10_000, 0), snap(2, 10_504, 0)], 10, 100_000);
    assert_eq!(pause_of(&d[0]), 42);
    assert_eq!(d[0].error, 504);
    let d = decide_corrections(&[snap(1, 10_000, 0), snap(2, 10_505, 0)], 10, 100_000);
    assert_eq!(pause_of(&d[0]), 43);
}

#[test]
fn deadband_and_follow_band_have_their_edges() {
    // Exactly 10 ms is within the deadband, a little more is not.
    assert!(decide(&[snap(1, 0, 0), snap(2, 10, 0)], 100_000).is_empty());
    assert_eq!(decide(&[snap(1, 0, 0), snap(2, 11, 0)], 100_000).len(), 1);
    // Exactly 1500 ms behind is followed, a little more is skipped home.
    let d = decide(&[snap(1, 0, 0), snap(2, 1500, 0)], 100_000);
    assert_eq!(d[0].sid, 1);
    let d = decide(&[snap(1, 0, 0), snap(2, 1501, 0)], 100_000);
    assert_eq!(d[0].sid, 2);
    assert_eq!(skip_of(&d[0]), 1493);
}

#[test]
fn cooldown_counts_on_the_wrapping_clock() {
    // Corrected 3000 ms ago, across the wrap of the 32-bit clock.
    let now: u32 = 1000;
    let then: u32 = now.wrapping_sub(3000);
    assert_eq!(decide(&[snap(1, 0, then), snap(2, 50, 0)], now).len(), 1);
    assert!(decide(&[snap(1, 0, then.wrapping_add(1)), snap(2, 50, 0)], now).is_empty());
}

#[test]
fn listing_order_does_not_matter() {
    let a = decide(&[snap(1, 1000, 0), snap(2, 1050, 0), snap(3, 1080, 0)], 100_000);
    let b = decide(&[snap(3, 1080, 0), snap(1, 1000, 0), snap(2, 1050, 0)], 100_000);
    let mut a: Vec<_> = a.iter().map(|c| (c.sid, c.error)).collect();
    let mut b: Vec<_> = b.iter().map(|c| (c.sid, c.error)).collect();
    a.sort();
    b.sort();
    assert_eq!(a, b);
    assert_eq!(a, vec![(1, 80), (2, 30)]);
}

#[test]
fn only_differences_of_anchors_count() {
    let near = decide(&[snap(1, 1000, 0), snap(2, 1050, 0)], 100_000);
    let far = decide(&[snap(1, -5_001_000, 0), snap(2, -5_000_950, 0)], 100_000);
    assert_eq!(near[0].action, far[0].action);
    assert_eq!(near[0].error, far[0].error);
}

// Carry a player's corrections out until there are none, and count them.
fn rounds_until_aligned(mut epoch: i128, other: i128) -> u32 {
    let mut rounds = 0;
    loop {
        let d = decide(&[snap(1, epoch, 0), snap(2, other, 0)], 100_000);
        match d.iter().find(|c| c.sid == 1) {
            None => return rounds,
            Some(c) => match c.action {
                Action::Pause(ms) => epoch += ms as i128,
                Action::Skip(ms) => epoch -= ms as i128,
            },
        }
        rounds += 1;
    }
}

#[test]
fn large_errors_converge_over_rounds() {
    assert_eq!(rounds_until_aligned(0, 5), 0);
    assert_eq!(rounds_until_aligned(0, 900), 1);
    assert_eq!(rounds_until_aligned(0, 1400), 2);
    // Parked 9000 ms behind: four skips of 2000 ms; then, within the follow band, the
    // other player waits.
    assert_eq!(rounds_until_aligned(9000, 0), 4);
}

#[test]
fn healthy_group_is_left_alone() {
    let d = decide(&[snap(1, 0, 0), snap(2, 10, 0), snap(3, 5, 0)], 100_000);
    assert!(d.is_empty());
}

#[test]
fn unstable_players_are_passed_over() {
    let with = decide(&[unstable(9, 0), snap(1, 1000, 0), unstable(8, 9), snap(2, 1050, 0)], 100_000);
    let without = decide(&[snap(1, 1000, 0), snap(2, 1050, 0)], 100_000);
    let view = |d: &[Correction]| d.iter().map(|c| (c.sid, c.error)).collect::<Vec<_>>();
    assert_eq!(view(&with), view(&without));
    // A lone stable player is its own reference.
    assert!(decide(&[snap(1, 1000, 0), unstable(2, 5000)], 100_000).is_empty());
}
