use squeezed::align::{Action, Correction};
use squeezed::audio::AudioFormat;
use squeezed::sync::{clock_ms, clock_reading, server_ms, Round, SyncManager};

// 8-bit mono at 8000 Hz: 8 bytes per millisecond.
fn manager(enabled: bool) -> SyncManager {
    SyncManager::new(AudioFormat { sample_rate: 8000, channels: 1, bits: 8 }, enabled)
}

// A report that answers a probe sent 10 ms before it arrives, by a player whose
// clock runs `lag` ms behind ours at the midpoint.
fn report(m: &mut SyncManager, sid: u64, lag: u32, elapsed: u32, recv: u32) -> Vec<Correction> {
    m.on_stmt_at(sid, recv - 5 - lag, elapsed, recv - 10, recv, recv)
}

fn two_players(m: &mut SyncManager) {
    assert!(!m.add_player(1, "aa".to_string(), "kitchen".to_string()));
    assert!(!m.add_player(2, "bb".to_string(), "bedroom".to_string()));
    m.set_http_start(1, 0);
    m.set_http_start(2, 0);
}

#[test]
fn leader_is_paused() {
    let mut m = manager(true);
    two_players(&mut m);
    assert!(report(&mut m, 1, 0, 3050, 100_000).is_empty());
    // Both have played since byte 0; 1 has played 50 ms more of it.
    let out = report(&mut m, 2, 700, 3000, 100_000);
    assert_eq!(out.len(), 1);
    assert_eq!(out[0].sid, 1);
    assert_eq!(out[0].action, Action::Pause(42));
    // 50 ms in units of 1/8000 ms.
    assert_eq!(out[0].error, 50 * 8000);
}

#[test]
fn correction_starts_a_cooldown() {
    let mut m = manager(true);
    two_players(&mut m);
    report(&mut m, 1, 0, 3050, 100_000);
    assert_eq!(report(&mut m, 2, 0, 3000, 100_000).len(), 1);
    m.correction_sent(1, 100_000);
    assert!(report(&mut m, 2, 0, 3100, 100_100).is_empty());
}

#[test]
fn failed_send_leaves_the_cooldown() {
    let mut m = manager(true);
    two_players(&mut m);
    report(&mut m, 1, 0, 3050, 100_000);
    assert_eq!(report(&mut m, 2, 0, 3000, 100_000).len(), 1);
    m.correction_tried(1, 100_000, false);
    assert_eq!(report(&mut m, 2, 0, 3000, 100_000).len(), 1);
    m.correction_tried(1, 100_000, true);
    assert!(report(&mut m, 2, 0, 3000, 100_000).is_empty());
}

#[test]
fn each_send_of_a_round_counts_for_itself() {
    let mut m = manager(true);
    two_players(&mut m);
    m.add_player(3, "cc".to_string(), "den".to_string());
    m.set_http_start(3, 0);
    report(&mut m, 1, 0, 3050, 100_000);
    report(&mut m, 2, 0, 3100, 100_000);
    let corrections = report(&mut m, 3, 0, 3000, 100_000);
    assert_eq!(corrections.len(), 2);
    // 1's send fails, 2's succeeds.
    let sent: Vec<bool> = corrections.iter().map(|c| c.sid == 2).collect();
    m.round_tried(&Round { now: 100_000, corrections }, &sent);
    let again = report(&mut m, 3, 0, 3000, 100_000);
    assert_eq!(again.len(), 1);
    assert_eq!(again[0].sid, 1);
}

#[test]
fn disabled_engine_only_listens() {
    let mut m = manager(false);
    two_players(&mut m);
    report(&mut m, 1, 0, 3500, 100_000);
    assert!(report(&mut m, 2, 0, 3000, 100_000).is_empty());
}

#[test]
fn stream_origin_counts() {
    let mut m = manager(true);
    two_players(&mut m);
    // 2 attached 400 bytes = 50 ms later, and has played 50 ms less: aligned.
    m.set_http_start(2, 400);
    assert_eq!(m.http_start(2), Some(400));
    report(&mut m, 1, 0, 3050, 100_000);
    assert!(report(&mut m, 2, 0, 3000, 100_000).is_empty());
    // 1 loses 80 bytes... and is 10 ms further into the stream than it says.
    m.advance_http_start(1, 160);
    assert_eq!(m.http_start(1), Some(160));
    let out = report(&mut m, 2, 0, 3000, 100_000);
    assert_eq!(out.len(), 1);
    assert_eq!((out[0].sid, out[0].action), (1, Action::Pause(12)));
}

#[test]
fn dropped_stream_has_no_anchor() {
    let mut m = manager(true);
    two_players(&mut m);
    report(&mut m, 1, 0, 3050, 100_000);
    assert_eq!(report(&mut m, 2, 0, 3000, 100_000).len(), 1);
    m.clear_http_start(1);
    assert_eq!(m.http_start(1), None);
    assert!(report(&mut m, 2, 0, 3000, 100_001).is_empty());
    // A leftover report against the previous stream does not anchor it either.
    m.set_http_start(1, 0);
    assert!(report(&mut m, 1, 0, 20_000, 100_002).is_empty());
    // A young counter does.
    assert_eq!(report(&mut m, 1, 0, 3050, 100_003).len(), 1);
}

#[test]
fn young_player_is_not_eligible() {
    let mut m = manager(true);
    two_players(&mut m);
    report(&mut m, 1, 0, 3050, 100_000);
    assert!(report(&mut m, 2, 0, 1999, 100_000).is_empty());
    assert_eq!(report(&mut m, 2, 0, 2000, 100_000).len(), 1);
}

#[test]
fn stale_player_does_not_anchor_the_group() {
    let mut m = manager(true);
    two_players(&mut m);
    report(&mut m, 1, 0, 3000, 100_000);
    // 1 was last heard 5001 ms ago.
    assert!(report(&mut m, 2, 0, 9050, 105_001).is_empty());
    // 5000 ms ago is recent enough: it stands 1050 ms behind.
    let mut m = manager(true);
    two_players(&mut m);
    report(&mut m, 1, 0, 3000, 100_000);
    assert_eq!(report(&mut m, 2, 0, 9050, 105_000).len(), 1);
}

#[test]
fn stalled_player_is_no_reference() {
    let mut m = manager(true);
    two_players(&mut m);
    report(&mut m, 1, 0, 5000, 100_000);
    report(&mut m, 2, 0, 5000, 100_000);
    // 2's counter stands still for a second while its clock runs on.
    report(&mut m, 1, 0, 6000, 101_000);
    assert!(report(&mut m, 2, 0, 5000, 101_000).is_empty());
    // Once it plays on steadily, 1 follows it.
    report(&mut m, 1, 0, 7000, 102_000);
    let out = report(&mut m, 2, 0, 6000, 102_000);
    assert_eq!(out.len(), 1);
    assert_eq!((out[0].sid, out[0].action), (1, Action::Pause(992)));
}

#[test]
fn quickest_probe_gives_the_offset() {
    let mut m = manager(true);
    two_players(&mut m);
    report(&mut m, 1, 0, 3000, 100_000);
    // A slow probe that puts 2 a second off, then a quick one that does not.
    m.on_stmt_at(2, 99_995 - 1000, 3000, 100_000 - 2010, 100_000, 100_000);
    assert!(m.on_stmt_at(2, 99_995, 3000, 99_990, 100_000, 100_000).is_empty());
    // Another slow one does not change that.
    assert!(m.on_stmt_at(2, 99_995, 3000, 97_990, 100_000, 100_000).is_empty());
}

#[test]
fn unknown_session_changes_nothing() {
    let mut m = manager(true);
    assert!(m.on_stmt_at(7, 1, 2, 3, 4, 5).is_empty());
    m.set_http_start(7, 100);
    m.advance_http_start(7, 100);
    m.clear_http_start(7);
    m.correction_sent(7, 100);
    m.correction_tried(7, 100, true);
    m.remove_player(7);
    assert_eq!(m.http_start(7), None);
}

#[test]
fn sessions_sharing_a_mac_stay_apart() {
    let mut m = manager(true);
    assert!(!m.add_player(1, "aa".to_string(), "old".to_string()));
    assert!(m.add_player(2, "aa".to_string(), "new".to_string()));
    m.set_http_start(1, 10);
    m.set_http_start(2, 20);
    assert_eq!((m.http_start(1), m.http_start(2)), (Some(10), Some(20)));
    m.remove_player(1);
    assert_eq!((m.http_start(1), m.http_start(2)), (None, Some(20)));
}

#[test]
fn report_on_the_real_clock() {
    let mut m = manager(true);
    two_players(&mut m);
    let before = server_ms();
    let first = m.on_stmt(1, before.wrapping_sub(5), 3050, before.wrapping_sub(10), before);
    assert!(first.corrections.is_empty());
    let round = m.on_stmt(2, before.wrapping_sub(5), 3000, before.wrapping_sub(10), before);
    let after = server_ms();
    assert!(round.now.wrapping_sub(before) <= after.wrapping_sub(before));
    assert_eq!(round.corrections.len(), 1);
    assert_eq!(round.corrections[0].action, Action::Pause(42));
}

#[test]
fn server_clock_is_the_low_32_bits_of_unix_time() {
    assert_eq!(clock_ms(0), 0);
    assert_eq!(clock_ms(0x1_0000_0000), 0);
    assert_eq!(clock_ms(1_700_000_000_123), (1_700_000_000_123u64 % 0x1_0000_0000) as u32);
    assert_eq!(clock_reading(Some(0x1_0000_0007)), 7);
    assert_eq!(clock_reading(None), 0);
    let unix = std::time::SystemTime::now()
        .duration_since(std::time::UNIX_EPOCH)
        .unwrap()
        .as_millis();
    assert!(server_ms().wrapping_sub(unix as u32) < 10_000);
}
