use squeezed::buffer::{BroadcastBuffer, RecvResult, MAX_BUFFERED};
use squeezed::config::InputSource;
use squeezed::input::{is_one_shot, pump_step, PumpNext, ReadOutcome, CHUNK};

#[test]
fn pump_copies_what_was_read() {
    let mut buf = BroadcastBuffer::new(MAX_BUFFERED);
    let mut rx = buf.subscribe();
    let mut chunk = vec![0u8; CHUNK];
    chunk[..3].copy_from_slice(b"abc");
    assert!(matches!(pump_step(&mut buf, &chunk, ReadOutcome::Read(3)), PumpNext::Continue));
    assert!(matches!(pump_step(&mut buf, &chunk, ReadOutcome::Interrupted), PumpNext::Continue));
    assert!(matches!(pump_step(&mut buf, &chunk, ReadOutcome::Read(2)), PumpNext::Continue));
    assert!(matches!(pump_step(&mut buf, &chunk, ReadOutcome::Read(0)), PumpNext::Stop));
    assert!(matches!(pump_step(&mut buf, &chunk, ReadOutcome::Failed), PumpNext::Stop));
    assert!(
        matches!(rx.recv_blocking(&buf), Some(RecvResult::Data { chunk, .. }) if chunk == b"abc")
    );
    assert!(
        matches!(rx.recv_blocking(&buf), Some(RecvResult::Data { chunk, .. }) if chunk == b"ab")
    );
    assert!(rx.recv_blocking(&buf).is_none());
    assert_eq!(buf.pushed(), 5);
}

#[test]
fn only_stdin_is_one_shot() {
    assert!(is_one_shot(&InputSource::Stdin));
    assert!(!is_one_shot(&InputSource::Fifo { path: "p".to_string() }));
    assert!(!is_one_shot(&InputSource::Unix { path: "p".to_string() }));
    assert!(!is_one_shot(&InputSource::Tcp { bind: "b".to_string() }));
}
