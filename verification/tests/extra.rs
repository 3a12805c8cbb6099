use ringcast::{Backoff, Poll, RecvError};

#[test]
fn backoff_tiers() {
    assert_eq!(ringcast::backoff(0, 2, true), Backoff::Spin);
    assert_eq!(ringcast::backoff(1, 2, true), Backoff::Spin);
    assert_eq!(ringcast::backoff(2, 2, true), Backoff::Yield);
    assert_eq!(ringcast::backoff(2, 2, false), Backoff::Spin);
    assert_eq!(ringcast::backoff(0, 0, true), Backoff::Yield);
}

#[test]
fn receiver_backoff_uses_builder_settings() {
    let (_tx, rx) = ringcast::builder::<u64>()
        .capacity(8)
        .spin_iterations(3)
        .allow_yield(true)
        .build();
    assert_eq!(rx.backoff(2), Backoff::Spin);
    assert_eq!(rx.backoff(3), Backoff::Yield);
    let (_tx, rx) = ringcast::bounded::<u64>(8);
    assert_eq!(rx.backoff(63), Backoff::Spin);
    assert_eq!(rx.backoff(64), Backoff::Spin);
}

#[test]
fn handles_can_move_between_threads() {
    fn assert_send<X: Send>() {}
    assert_send::<ringcast::Sender<u64>>();
    assert_send::<ringcast::Receiver<u64>>();
    assert_send::<ringcast::large::Sender<u64>>();
    assert_send::<ringcast::large::Receiver<u64>>();
}

#[test]
fn fifo_read_back_up_to_capacity() {
    // Law: everything sent after subscribing is read back in order.
    let (tx, _rx) = ringcast::bounded::<u64>(8);
    tx.send(100);
    let mut rx = tx.subscribe();
    let items = [5u64, 6, 7, 8, 9, 10, 11, 12];
    tx.send_batch(&items);
    for &x in &items {
        assert_eq!(rx.try_recv(), Ok(x));
    }
    assert_eq!(rx.try_recv(), Err(RecvError::Empty));
}

#[test]
fn lapped_receiver_keeps_newest() {
    // Law: lost == sent - capacity, then the newest `capacity` items in order.
    let (tx, mut rx) = ringcast::bounded::<u64>(4);
    for i in 0..11u64 {
        tx.send(i);
    }
    assert_eq!(rx.try_recv(), Err(RecvError::Overrun { lost: 7 }));
    for i in 7..11u64 {
        assert_eq!(rx.try_recv(), Ok(i));
    }
    assert_eq!(rx.try_recv(), Err(RecvError::Empty));
}

#[test]
fn check_overrun_matches_recv_overrun() {
    let (tx, mut rx1) = ringcast::bounded::<u64>(4);
    let mut rx2 = tx.subscribe();
    for i in 0..9u64 {
        tx.send(i);
    }
    assert_eq!(rx1.check_overrun(), Some(5));
    assert_eq!(rx2.try_recv(), Err(RecvError::Overrun { lost: 5 }));
    assert_eq!(rx1.check_overrun(), None);
    assert_eq!(rx1.available(), 4);
    assert_eq!(rx1.try_recv(), Ok(5));
    assert_eq!(rx2.try_recv(), Ok(5));
}

#[test]
fn batch_equals_repeated_recv() {
    let (tx, mut a) = ringcast::bounded::<u64>(16);
    let mut b = tx.subscribe();
    tx.send_batch(&[3, 1, 4, 1, 5, 9, 2, 6]);
    let mut buf = [0u64; 5];
    assert_eq!(a.try_recv_batch(&mut buf), Ok(5));
    for &x in &buf {
        assert_eq!(b.try_recv(), Ok(x));
    }
    assert_eq!(a.available(), b.available());
    assert_eq!(a.try_recv_batch(&mut buf), Ok(3));
    assert_eq!(&buf[..3], &[9, 2, 6]);
    assert_eq!(a.try_recv_batch(&mut buf), Err(RecvError::Empty));
}

#[test]
fn new_subscriber_sees_only_later_items() {
    let (tx, _rx) = ringcast::bounded::<u64>(4);
    tx.send(1);
    let mut rx = tx.subscribe();
    assert_eq!(rx.available(), 0);
    assert_eq!(rx.try_recv(), Err(RecvError::Empty));
    tx.send(2);
    assert_eq!(rx.try_recv(), Ok(2));
}

#[test]
fn large_channel_round_trip() {
    let (tx, mut rx) = ringcast::large::bounded::<[u64; 4]>(2);
    tx.send([1, 2, 3, 4]);
    assert_eq!(rx.available(), 1);
    assert_eq!(rx.try_recv(), Ok([1, 2, 3, 4]));
    assert_eq!(rx.try_recv(), Err(RecvError::Empty));
    let mut rx2 = tx.subscribe();
    assert_eq!(tx.send_batch(&[[5; 4], [6; 4], [7; 4]]), 3);
    assert_eq!(rx.check_overrun(), Some(1));
    assert_eq!(rx.try_recv(), Ok([6; 4]));
    let mut buf = [[0u64; 4]; 4];
    assert_eq!(rx2.try_recv_batch(&mut buf), Err(RecvError::Overrun { lost: 1 }));
    assert_eq!(rx2.try_recv_batch(&mut buf), Ok(2));
    assert_eq!(&buf[..2], &[[6; 4], [7; 4]]);
    // nothing left: Empty, as in the standard variant; Ok(0) only for an empty buffer
    assert_eq!(rx2.try_recv_batch(&mut buf), Err(RecvError::Empty));
    assert_eq!(rx2.try_recv_batch(&mut []), Ok(0));
}

#[test]
fn large_ring_slots_are_tagged() {
    let mut ring = ringcast::large::LargeRingBuf::<u64>::new(3);
    assert_eq!(ring.capacity(), 4);
    assert_eq!(ring.mask(), 3);
    ring.send_batch(&[10, 11, 12, 13, 14]);
    assert_eq!(ring.w_top(), 5);
    assert_eq!(ring.read_slot(0), None);
    assert_eq!(ring.read_slot(4), Some(14));
    assert_eq!(ring.read_slot(1), Some(11));
    assert_eq!(ring.read_slot(5), None);
    let slot = ring.slot(4);
    assert_eq!((slot.seq_pre, slot.data, slot.seq_post), (4, 14, 4));
    assert_eq!(ring.try_recv_at(0), (1, Err(RecvError::Overrun { lost: 1 })));
}

#[test]
fn capacity_is_next_power_of_two() {
    assert_eq!(ringcast::RingBuf::<u8>::new(5).capacity(), 8);
    assert_eq!(ringcast::RingBuf::<u8>::new(8).capacity(), 8);
    assert_eq!(ringcast::RingBuf::<u8>::new(9).capacity(), 16);
}

#[test]
fn available_is_capped_for_lapped_receiver() {
    let (tx, rx) = ringcast::bounded::<u64>(4);
    for i in 0..8u64 {
        tx.send(i);
    }
    // only positions 4..8 survive
    assert_eq!(rx.available(), 4);
    let (tx, rx) = ringcast::large::bounded::<u64>(4);
    for i in 0..9u64 {
        tx.send(i);
    }
    assert_eq!(rx.available(), 4);
}

#[test]
fn large_batch_on_fresh_ring_is_empty() {
    let (_tx, mut rx) = ringcast::large::bounded::<[u64; 4]>(4);
    let mut buf = [[0u64; 4]; 2];
    assert_eq!(rx.try_recv_batch(&mut buf), Err(RecvError::Empty));
    assert_eq!(buf, [[0u64; 4]; 2]);
}

#[test]
fn poll_recv_decisions() {
    let (tx, mut rx) = ringcast::builder::<u64>()
        .capacity(2)
        .spin_iterations(1)
        .allow_yield(true)
        .build();
    assert_eq!(rx.poll_recv(0), Poll::Wait(Backoff::Spin));
    assert_eq!(rx.poll_recv(1), Poll::Wait(Backoff::Yield));
    tx.send(1);
    assert_eq!(rx.poll_recv(0), Poll::Ready(Ok(1)));
    tx.send_batch(&[2, 3, 4]);
    assert_eq!(rx.poll_recv(0), Poll::Retry);
    assert_eq!(rx.poll_recv(0), Poll::Ready(Ok(3)));
}

#[test]
fn poll_deadline_decisions() {
    let (tx, mut rx) = ringcast::bounded::<u64>(2);
    assert_eq!(rx.poll_deadline(false, 0), Poll::Wait(Backoff::Spin));
    assert_eq!(rx.poll_deadline(true, 0), Poll::Ready(Err(RecvError::Timeout)));
    tx.send(7);
    // data is returned even after the deadline
    assert_eq!(rx.poll_deadline(true, 0), Poll::Ready(Ok(7)));
    tx.send_batch(&[8, 9, 10]);
    // an overrun is returned at once, even after the deadline
    assert_eq!(
        rx.poll_deadline(true, 0),
        Poll::Ready(Err(RecvError::Overrun { lost: 1 }))
    );
}

#[test]
fn poll_batch_decisions() {
    let (tx, mut rx) = ringcast::bounded::<u64>(2);
    let mut buf = [0u64; 4];
    assert_eq!(rx.poll_batch(&mut [], 0), Poll::Ready(Ok(0)));
    assert_eq!(rx.poll_batch(&mut buf, 100), Poll::Wait(Backoff::Spin));
    tx.send_batch(&[1, 2, 3]);
    assert_eq!(rx.poll_batch(&mut buf, 0), Poll::Retry);
    assert_eq!(rx.poll_batch(&mut buf, 0), Poll::Ready(Ok(2)));
    assert_eq!(&buf[..2], &[2, 3]);

    let (tx, mut rx) = ringcast::large::bounded::<u64>(2);
    assert_eq!(rx.poll_batch(&mut buf, 0), Poll::Wait(Backoff::Spin));
    tx.send(5);
    assert_eq!(rx.poll_recv(0), Poll::Ready(Ok(5)));
    assert_eq!(rx.poll_deadline(true, 0), Poll::Ready(Err(RecvError::Timeout)));
}
