use squeezed::buffer::{
    BroadcastBuffer, BroadcastReceiver, RecvResult, MAX_BUFFERED, MIN_BUFFERED,
};

fn data(r: Option<RecvResult>) -> (Vec<u8>, u64) {
    match r {
        Some(RecvResult::Data { chunk, skipped_bytes }) => (chunk, skipped_bytes),
        Some(RecvResult::Closed) => panic!("closed"),
        None => panic!("nothing yet"),
    }
}

fn drain(rx: &mut BroadcastReceiver, buf: &BroadcastBuffer) -> Vec<u8> {
    let mut out = Vec::new();
    loop {
        match rx.recv_blocking(buf) {
            Some(RecvResult::Data { chunk, .. }) => out.extend_from_slice(&chunk),
            _ => return out,
        }
    }
}

#[test]
fn reader_gets_what_comes_after_it_subscribed() {
    let mut buf = BroadcastBuffer::new(MAX_BUFFERED);
    buf.push(b"before");
    let mut rx = buf.subscribe();
    assert_eq!(rx.position(), 6);
    assert!(rx.recv_blocking(&buf).is_none());
    buf.push(b"one");
    buf.push(b"two");
    assert_eq!(data(rx.recv_blocking(&buf)), (b"one".to_vec(), 0));
    assert_eq!(rx.position(), 9);
    assert_eq!(data(rx.recv_blocking(&buf)), (b"two".to_vec(), 0));
    assert!(rx.recv_blocking(&buf).is_none());
    assert_eq!(buf.pushed(), 12);
}

#[test]
fn readers_are_independent() {
    let mut buf = BroadcastBuffer::new(MAX_BUFFERED);
    let mut a = buf.subscribe();
    let mut b = buf.subscribe();
    buf.push(b"x");
    assert_eq!(drain(&mut a, &buf), b"x");
    buf.push(b"y");
    assert_eq!(drain(&mut b, &buf), b"xy");
    assert_eq!(drain(&mut a, &buf), b"y");
}

#[test]
fn close_ends_after_what_is_left() {
    let mut buf = BroadcastBuffer::new(MAX_BUFFERED);
    let mut rx = buf.subscribe();
    buf.push(b"last");
    buf.close();
    buf.push(b"too late");
    assert_eq!(data(rx.recv_blocking(&buf)), (b"last".to_vec(), 0));
    assert!(matches!(rx.recv_blocking(&buf), Some(RecvResult::Closed)));
    buf.close();
    buf.push(b"still too late");
    assert!(matches!(rx.recv_blocking(&buf), Some(RecvResult::Closed)));
    assert_eq!((rx.position(), buf.pushed()), (4, 4));
}

#[test]
fn empty_chunks_are_not_kept() {
    let mut buf = BroadcastBuffer::new(MAX_BUFFERED);
    let mut rx = buf.subscribe();
    buf.push(b"");
    assert!(rx.recv_blocking(&buf).is_none());
}

#[test]
fn brief_stall_loses_nothing() {
    let mut buf = BroadcastBuffer::new(0); // raised to the minimum
    let mut rx = buf.subscribe();
    let half = vec![1u8; MIN_BUFFERED / 2];
    buf.push(&half);
    buf.push(&half);
    assert_eq!(drain(&mut rx, &buf).len(), MIN_BUFFERED);
    assert_eq!(rx.position(), MIN_BUFFERED as u64);
}

#[test]
fn long_stall_skips_forward() {
    let mut buf = BroadcastBuffer::new(MIN_BUFFERED);
    let mut rx = buf.subscribe();
    let half = MIN_BUFFERED / 2;
    buf.push(&vec![1u8; half]);
    buf.push(&vec![2u8; half]);
    buf.push(&vec![3u8; half]); // the first is past retention now
    let (chunk, skipped) = data(rx.recv_blocking(&buf));
    assert_eq!(skipped, half as u64);
    assert_eq!(chunk, vec![2u8; half]);
    assert_eq!(rx.position(), 2 * half as u64);
    assert_eq!(data(rx.recv_blocking(&buf)), (vec![3u8; half], 0));
}

#[test]
fn oversized_chunk_is_not_retained() {
    let mut buf = BroadcastBuffer::new(MIN_BUFFERED);
    let mut rx = buf.subscribe();
    buf.push(&vec![1u8; MIN_BUFFERED + 1]);
    assert!(rx.recv_blocking(&buf).is_none());
    buf.push(b"next");
    let (chunk, skipped) = data(rx.recv_blocking(&buf));
    assert_eq!(chunk, b"next");
    assert_eq!(skipped, MIN_BUFFERED as u64 + 1);
}

#[test]
fn longest_fitting_end_is_retained() {
    let mut buf = BroadcastBuffer::new(MIN_BUFFERED);
    let mut rx = buf.subscribe();
    let sizes = [30_000, 0, 20_000, 20_000, 25_000];
    for (i, n) in sizes.iter().enumerate() {
        buf.push(&vec![i as u8; *n]);
    }
    // 20000 + 20000 + 25000 fit; with the first they would not.
    let (chunk, skipped) = data(rx.recv_blocking(&buf));
    assert_eq!((chunk, skipped), (vec![2u8; 20_000], 30_000));
    assert_eq!(data(rx.recv_blocking(&buf)), (vec![3u8; 20_000], 0));
    assert_eq!(data(rx.recv_blocking(&buf)), (vec![4u8; 25_000], 0));
    assert_eq!(rx.position(), buf.pushed());
}

#[test]
fn subscription_has_no_backlog() {
    let mut buf = BroadcastBuffer::new(MAX_BUFFERED);
    buf.push(b"held");
    let mut rx = buf.subscribe();
    buf.close();
    assert!(matches!(rx.recv_blocking(&buf), Some(RecvResult::Closed)));
    assert_eq!(rx.position(), 4);
}
