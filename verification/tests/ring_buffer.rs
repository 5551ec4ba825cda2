use parse_tcp::ring_buffer::RingBuf;

#[test]
fn new() {
    let mut buf: RingBuf<&str> = RingBuf::new();
    buf.push_back("world");
    buf.push_back("!");
    buf.push_front(", ");
    buf.push_front("Hello");

    assert_eq!(buf.pop_front(), Some("Hello"));
    assert_eq!(buf.pop_front(), Some(", "));
    assert_eq!(buf.pop_front(), Some("world"));
    assert_eq!(buf.pop_front(), Some("!"));
    assert_eq!(buf.pop_front(), None);
}

#[test]
fn copy_around_slices() {
    let mut buf: RingBuf<u8> = RingBuf::new();
    buf.push_back_copy_from_slice(&[5, 6, 7, 8, 9, 10, 11]);
    buf.push_front_copy_from_slice(&[0, 1, 2, 3, 4]);
    assert_eq!(buf.get(3), Some(3));
    assert_eq!(buf.get(7), Some(7));

    let dest = buf.range(3, 6);
    assert_eq!(dest, [3, 4, 5]);

    let mut dest = vec![0u8; 6];
    buf.pop_front_copy_to_slice(&mut dest);
    assert_eq!(dest, [0, 1, 2, 3, 4, 5]);
    buf.pop_back_copy_to_slice(&mut dest);
    assert_eq!(dest, [6, 7, 8, 9, 10, 11]);
}

#[test]
fn copy_from_slice() {
    let mut buf: RingBuf<u8> = RingBuf::new();
    buf.push_back_copy_from_slice(&[0u8; 4096]);

    buf.write_range(1024, &[1u8; 1024]);

    buf.drain_front(1024);

    assert_eq!(buf.get(1024), Some(0));
    assert_eq!(buf.get(512), Some(1));

    buf.push_front_copy_from_slice(&[2u8; 1024]);

    assert_eq!(buf.get(512), Some(2));
    assert_eq!(buf.get(1536), Some(1));
    assert_eq!(buf.get(3072), Some(0));
}

#[test]
fn drain() {
    let mut buf: RingBuf<&str> = RingBuf::new();
    buf.push_back("Hello, ");
    buf.push_back("world!");

    let digits = ["0", "1", "2", "3", "4", "5", "6", "7", "8", "9"];
    for d in digits {
        buf.push_back(d);
    }

    let a = buf.range(0, 2);
    buf.drain_front(2);
    assert_eq!(a.join(""), "Hello, world!");
    let b = buf.range(0, buf.len());
    buf.drain_front(buf.len());
    assert_eq!(b.join(""), "0123456789");
    assert_eq!(buf.len(), 0);
}

#[test]
fn byte_round_trip_back() {
    // pushing a byte string at the back and popping the same number of
    // bytes off the back yields the same string
    let s: Vec<u8> = (0u8..=255).collect();
    let mut buf: RingBuf<u8> = RingBuf::new();
    buf.push_back_copy_from_slice(&[9, 9, 9]);
    buf.push_back_copy_from_slice(&s);
    let mut out = vec![0u8; s.len()];
    buf.pop_back_copy_to_slice(&mut out);
    assert_eq!(out, s);
    assert_eq!(buf.len(), 3);
}

#[test]
fn byte_round_trip_front() {
    // pushing at the front and draining off the front yields the string
    let s: Vec<u8> = (0u8..=255).rev().collect();
    let mut buf: RingBuf<u8> = RingBuf::new();
    buf.push_back_copy_from_slice(&[7, 7]);
    buf.push_front_copy_from_slice(&s);
    let mut out = vec![0u8; s.len()];
    buf.pop_front_copy_to_slice(&mut out);
    assert_eq!(out, s);
    assert_eq!(buf.len(), 2);
}

#[test]
fn both_ends_concatenation() {
    // pushing at both ends and draining from the front yields the
    // concatenation in insertion order, whatever the backing storage did
    let mut buf: RingBuf<u8> = RingBuf::new();
    buf.push_back_copy_from_slice(b"middle");
    buf.push_front_copy_from_slice(b"front-");
    buf.push_back_copy_from_slice(b"-back");
    let all = buf.range(0, buf.len());
    assert_eq!(all, b"front-middle-back");
}
