use krabibuffer::{Error, KrabiBuffer};

#[test]
fn test_buffer_size() {
    assert_eq!(core::mem::size_of::<KrabiBuffer<4>>(), 48);
}

#[test]
fn test_creation() {
    let stride = 2;
    let buf = KrabiBuffer::<4>::new(stride).unwrap();

    assert_eq!(buf.magic & 0xF0, 0xC0);
    assert_eq!(buf.slot_count(), (4 / stride) as u64);
    assert_eq!(buf.stride(), stride as u64);
    assert_eq!(buf.head(), 0);
    assert_eq!(buf.tail(), 0);
    assert_eq!(buf.len(), 0);
    assert!(buf.is_empty());
    assert_eq!(buf.capacity(), (4 / stride) as u64 - 1);
}

#[test]
fn test_creation_errors() {
    let result = KrabiBuffer::<4>::new(0);
    assert!(matches!(result.unwrap_err(), Error::StrideIsZero));

    let result = KrabiBuffer::<5>::new(2);
    assert!(matches!(
        result.unwrap_err(),
        Error::StrideNotEvenlyDivisible
    ));

    let result = KrabiBuffer::<1>::new(1);
    assert!(matches!(result.unwrap_err(), Error::SlotCountTooSmall));
}

#[test]
fn test_enqueue_dequeue() {
    let mut buf = KrabiBuffer::<6>::new(2).unwrap();
    let (mut prod, mut cons) = buf.split();
    let data1 = [1, 2];
    let data2 = [3, 4];
    let mut out = [0, 0];

    assert!(prod.enqueue(&mut buf, &data1).is_ok());
    assert_eq!(prod.len(&buf), 1);

    assert!(prod.enqueue(&mut buf, &data2).is_ok());
    assert_eq!(prod.len(&buf), 2);

    cons.dequeue(&mut buf, &mut out).unwrap();
    assert_eq!(out, data1);
    assert_eq!(cons.len(&buf), 1);

    cons.dequeue(&mut buf, &mut out).unwrap();
    assert_eq!(out, data2);
    assert_eq!(cons.len(&buf), 0);

    // wrap-around
    assert!(prod.enqueue(&mut buf, &data1).is_ok());
    assert!(prod.enqueue(&mut buf, &data2).is_ok());
    cons.dequeue(&mut buf, &mut out).unwrap();
    assert!(prod.enqueue(&mut buf, &data1).is_ok());
}

#[test]
fn test_enqueue_full() {
    let mut buf = KrabiBuffer::<6>::new(2).unwrap();
    let (mut prod, _cons) = buf.split();
    let data = [1, 2];

    assert!(prod.enqueue(&mut buf, &data).is_ok());
    assert!(prod.enqueue(&mut buf, &data).is_ok());

    let result = prod.enqueue(&mut buf, &data);
    assert!(matches!(result.unwrap_err(), Error::QueueFull));
}

#[test]
fn test_dequeue_empty() {
    let mut buf = KrabiBuffer::<4>::new(2).unwrap();
    let (_prod, mut cons) = buf.split();
    let mut out = [0, 0];

    let result = cons.dequeue(&mut buf, &mut out);
    assert!(matches!(result.unwrap_err(), Error::QueueEmpty));
}

#[test]
fn test_invalid_data_length() {
    let mut buf = KrabiBuffer::<4>::new(2).unwrap();
    let (mut prod, mut cons) = buf.split();
    let data = [1, 2, 3];
    let mut out = [0];

    let result = prod.enqueue(&mut buf, &data);
    assert!(matches!(result.unwrap_err(), Error::InvalidDataLength));

    let result = cons.dequeue(&mut buf, &mut out);
    assert!(matches!(result.unwrap_err(), Error::InvalidDataLength));
}
