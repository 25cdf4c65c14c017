use krabibuffer::{Error, KrabiBuffer};

#[test]
fn marker_encodes_pointer_width() {
    let buf = KrabiBuffer::<8>::new(4).unwrap();
    let expected: u8 = if usize::BITS == 64 { 0xC3 } else { 0xC2 };
    assert_eq!(buf.magic, expected);
}

#[test]
fn capacity_is_one_less_than_slot_count() {
    let buf = KrabiBuffer::<24>::new(4).unwrap();
    assert_eq!(buf.slot_count(), 6);
    assert_eq!(buf.capacity(), 5);
    let (prod, cons) = buf.split();
    assert_eq!(prod.capacity(&buf), 5);
    assert_eq!(cons.capacity(&buf), 5);
}

#[test]
fn fills_to_capacity_then_refuses() {
    let mut buf = KrabiBuffer::<12>::new(3).unwrap();
    let (mut prod, _cons) = buf.split();
    for k in 0..3u8 {
        assert!(prod.enqueue(&mut buf, &[k, k, k]).is_ok());
    }
    assert_eq!(prod.len(&buf), 3);
    let head = buf.head();
    let tail = buf.tail();
    assert_eq!(
        prod.enqueue(&mut buf, &[9, 9, 9]).unwrap_err(),
        Error::QueueFull
    );
    // a refused enqueue leaves the indices as they were
    assert_eq!(buf.head(), head);
    assert_eq!(buf.tail(), tail);
    assert_eq!(prod.len(&buf), 3);
}

#[test]
fn items_leave_in_the_order_they_came() {
    let mut buf = KrabiBuffer::<8>::new(2).unwrap();
    let (mut prod, mut cons) = buf.split();
    let mut out = [0u8; 2];
    for round in 0..10u8 {
        assert!(prod.enqueue(&mut buf, &[round, 1]).is_ok());
        assert!(prod.enqueue(&mut buf, &[round, 2]).is_ok());
        cons.dequeue(&mut buf, &mut out).unwrap();
        assert_eq!(out, [round, 1]);
        cons.dequeue(&mut buf, &mut out).unwrap();
        assert_eq!(out, [round, 2]);
        assert!(cons.is_empty(&buf));
    }
}

#[test]
fn round_trip_through_empty_buffer() {
    let mut buf = KrabiBuffer::<16>::new(4).unwrap();
    let (mut prod, mut cons) = buf.split();
    let mut read_back = [0u8; 4];
    assert!(prod.enqueue(&mut buf, b"nim!").is_ok());
    let got = cons.dequeue(&mut buf, &mut read_back).unwrap();
    assert_eq!(got, b"nim!");
    assert_eq!(read_back, *b"nim!");
    assert!(cons.is_empty(&buf));
    assert!(prod.enqueue(&mut buf, b"rust").is_ok());
    assert_eq!(buf.head(), 1);
    assert_eq!(buf.tail(), 2);
    cons.dequeue(&mut buf, &mut read_back).unwrap();
    assert_eq!(read_back, *b"rust");
}

#[test]
fn enqueue_and_dequeue_commute_on_nonempty_buffer() {
    let mut a = KrabiBuffer::<8>::new(2).unwrap();
    let mut b = KrabiBuffer::<8>::new(2).unwrap();
    let (mut pa, mut ca) = a.split();
    let (mut pb, mut cb) = b.split();
    let mut out_a = [0u8; 2];
    let mut out_b = [0u8; 2];
    pa.enqueue(&mut a, &[1, 1]).unwrap();
    pb.enqueue(&mut b, &[1, 1]).unwrap();
    // a: enqueue then dequeue; b: dequeue then enqueue
    pa.enqueue(&mut a, &[2, 2]).unwrap();
    ca.dequeue(&mut a, &mut out_a).unwrap();
    cb.dequeue(&mut b, &mut out_b).unwrap();
    pb.enqueue(&mut b, &[2, 2]).unwrap();
    assert_eq!(out_a, out_b);
    assert_eq!(a.len(), b.len());
    ca.dequeue(&mut a, &mut out_a).unwrap();
    cb.dequeue(&mut b, &mut out_b).unwrap();
    assert_eq!(out_a, [2, 2]);
    assert_eq!(out_b, [2, 2]);
}

#[test]
fn len_counts_across_the_wrap() {
    let mut buf = KrabiBuffer::<4>::new(1).unwrap();
    let (mut prod, mut cons) = buf.split();
    let mut out = [0u8; 1];
    for k in 0..3u8 {
        prod.enqueue(&mut buf, &[k]).unwrap();
    }
    cons.dequeue(&mut buf, &mut out).unwrap();
    cons.dequeue(&mut buf, &mut out).unwrap();
    prod.enqueue(&mut buf, &[7]).unwrap();
    // tail has wrapped below head
    assert_eq!(buf.head(), 2);
    assert_eq!(buf.tail(), 0);
    assert_eq!(buf.len(), 2);
    assert!(!buf.is_empty());
    prod.enqueue(&mut buf, &[8]).unwrap();
    assert_eq!(buf.len(), 3);
    cons.dequeue(&mut buf, &mut out).unwrap();
    assert_eq!(out, [2]);
    cons.dequeue(&mut buf, &mut out).unwrap();
    assert_eq!(out, [7]);
    cons.dequeue(&mut buf, &mut out).unwrap();
    assert_eq!(out, [8]);
    assert_eq!(cons.dequeue(&mut buf, &mut out).unwrap_err(), Error::QueueEmpty);
}

#[test]
fn refused_operations_leave_caller_bytes_alone() {
    let mut buf = KrabiBuffer::<4>::new(2).unwrap();
    let (_prod, mut cons) = buf.split();
    let mut out = [5u8, 6u8];
    assert_eq!(cons.dequeue(&mut buf, &mut out).unwrap_err(), Error::QueueEmpty);
    assert_eq!(out, [5, 6]);
    let mut short = [5u8];
    assert_eq!(
        cons.dequeue(&mut buf, &mut short).unwrap_err(),
        Error::InvalidDataLength
    );
    assert_eq!(short, [5]);
}
