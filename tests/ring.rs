use charon::buffer::RingBuffer;
use charon::cursor::{advance, available, free_space};
use charon::layout::{CAPACITY, HEADER_LEN, PAYLOAD_LEN};
use charon::ring::{read_step, write_step, ReadStep, WriteStep};

fn pattern(n: usize, seed: u8) -> Vec<u8> {
    (0..n).map(|i| (i as u8).wrapping_mul(31).wrapping_add(seed)).collect()
}

fn drain(rb: &mut RingBuffer) -> Vec<u8> {
    let mut got = Vec::new();
    let mut chunk = [0u8; 16];
    while let Some(n) = rb.try_read(&mut chunk) {
        got.extend_from_slice(&chunk[..n]);
    }
    got
}

#[test]
fn layout_fills_segment() {
    assert_eq!(HEADER_LEN + PAYLOAD_LEN, CAPACITY);
    assert_eq!(PAYLOAD_LEN, 4076);
    assert_eq!(RingBuffer::new().payload_len(), PAYLOAD_LEN);
    assert_eq!(RingBuffer::with_capacity(64).payload_len(), 44);
}

#[test]
fn cursor_arithmetic() {
    assert_eq!(free_space(0, 0, 10), 9);
    assert_eq!(free_space(7, 2, 10), 4);
    assert_eq!(free_space(3, 5, 10), 1);
    assert_eq!(free_space(4, 5, 10), 0);
    assert_eq!(available(0, 0, 10), 0);
    assert_eq!(available(7, 2, 10), 5);
    assert_eq!(available(2, 7, 10), 5);
    assert_eq!(advance(8, 5, 10), 3);
    assert_eq!(advance(2, 5, 10), 7);
    assert_eq!(advance(5, 5, 10), 0);
}

#[test]
fn write_step_straddles_end() {
    let mut payload = [0u8; 8];
    let r = write_step(&mut payload, 6, 2, &[1, 2, 3]);
    assert_eq!(r, WriteStep::Written { head: 1 });
    assert_eq!(payload, [3, 0, 0, 0, 0, 0, 1, 2]);
}

#[test]
fn write_step_all_or_nothing() {
    let mut payload = [9u8; 8];
    // head 6, tail 2: four live bytes, three free.
    let r = write_step(&mut payload, 6, 2, &[1, 2, 3, 4]);
    assert_eq!(r, WriteStep::Full);
    assert_eq!(payload, [9u8; 8]);
}

#[test]
fn read_step_straddles_end() {
    let payload = [30u8, 31, 32, 33, 34, 35, 36, 37];
    let mut out = [0u8; 5];
    let r = read_step(&payload, 2, 6, &mut out);
    assert_eq!(r, ReadStep::Read { count: 4, tail: 2 });
    assert_eq!(out, [36, 37, 30, 31, 0]);
}

#[test]
fn read_step_short_buffer() {
    let payload = [30u8, 31, 32, 33, 34, 35, 36, 37];
    let mut out = [0u8; 2];
    let r = read_step(&payload, 5, 1, &mut out);
    assert_eq!(r, ReadStep::Read { count: 2, tail: 3 });
    assert_eq!(out, [31, 32]);
}

#[test]
fn read_step_empty() {
    let payload = [1u8; 8];
    let mut out = [7u8; 4];
    assert_eq!(read_step(&payload, 3, 3, &mut out), ReadStep::Empty);
    assert_eq!(out, [7u8; 4]);
}

#[test]
fn wraparound_split() {
    let c = 64;
    let payload = c - 20;
    let mut rb = RingBuffer::with_capacity(c);
    let first = pattern(payload - 5, 1);
    assert_eq!(rb.try_write(&first), Some(payload - 5));
    let mut three = [0u8; 3];
    assert_eq!(rb.try_read(&mut three), Some(3));
    assert_eq!(&three[..], &first[..3]);
    // With three bytes read, eight more would need every slot: one must stay free.
    let second = pattern(8, 100);
    assert_eq!(rb.try_write(&second), None);
    assert_eq!(rb.len(), payload - 8);
    let mut one = [0u8; 1];
    assert_eq!(rb.try_read(&mut one), Some(1));
    assert_eq!(one[0], first[3]);
    // Now the eight bytes fit and straddle the end of the payload.
    assert_eq!(rb.try_write(&second), Some(8));
    assert!(rb.is_full());
    let mut expected = first[4..].to_vec();
    expected.extend_from_slice(&second);
    assert_eq!(drain(&mut rb), expected);
    assert!(rb.is_empty());
}

#[test]
fn wraparound_split_fitting() {
    let c = 64;
    let payload = c - 20;
    let mut rb = RingBuffer::with_capacity(c);
    let first = pattern(payload - 5, 7);
    assert_eq!(rb.try_write(&first), Some(payload - 5));
    let mut three = [0u8; 3];
    assert_eq!(rb.try_read(&mut three), Some(3));
    let second = pattern(7, 200);
    assert_eq!(rb.try_write(&second), Some(7));
    let mut expected = first[3..].to_vec();
    expected.extend_from_slice(&second);
    assert_eq!(drain(&mut rb), expected);
}

#[test]
fn full_detection() {
    let mut rb = RingBuffer::with_capacity(30);
    let fill = pattern(9, 3);
    assert_eq!(rb.free(), 9);
    assert_eq!(rb.try_write(&fill), Some(9));
    assert!(rb.is_full());
    assert_eq!(rb.free(), 0);
    assert_eq!(rb.try_write(&[42]), None);
    assert_eq!(rb.len(), 9);
    let mut one = [0u8; 1];
    assert_eq!(rb.try_read(&mut one), Some(1));
    assert_eq!(one[0], fill[0]);
    assert_eq!(rb.try_write(&[42]), Some(1));
    let mut expected = fill[1..].to_vec();
    expected.push(42);
    assert_eq!(drain(&mut rb), expected);
}

#[test]
fn empty_detection() {
    let mut rb = RingBuffer::new();
    let mut out = [5u8; 4];
    assert_eq!(rb.try_read(&mut out), None);
    assert_eq!(out, [5u8; 4]);
    assert!(rb.is_empty());
    assert_eq!(rb.try_write(b"ab"), Some(2));
    assert_eq!(rb.try_read(&mut out), Some(2));
    assert_eq!(out, [b'a', b'b', 5, 5]);
    assert_eq!(rb.try_read(&mut out), None);
}

#[test]
fn empty_write_is_accepted() {
    let mut rb = RingBuffer::with_capacity(24);
    assert_eq!(rb.try_write(&[]), Some(0));
    assert!(rb.is_empty());
    assert_eq!(rb.try_write(&[1, 2, 3]), Some(3));
    assert!(rb.is_full());
    assert_eq!(rb.try_write(&[]), Some(0));
}

#[test]
fn messages_in_order() {
    let mut rb = RingBuffer::new();
    let messages: [&[u8]; 5] = [
        b"hello world 1",
        b"hello world 2",
        b"hello world 3",
        b"hello world 4",
        b"hello world 5",
    ];
    for m in messages.iter() {
        assert_eq!(rb.try_write(m), Some(m.len()));
    }
    let mut out = [0u8; 1024];
    assert_eq!(rb.try_read(&mut out), Some(65));
    assert_eq!(&out[..13], b"hello world 1");
    assert_eq!(&out[52..65], b"hello world 5");
}

#[test]
fn producer_consumer_stress() {
    let total: usize = 200_000;
    let produced = pattern(total, 11);
    let mut rb = RingBuffer::with_capacity(128);
    let mut seed: u32 = 12345;
    let mut next = move |bound: usize| {
        seed = seed.wrapping_mul(1_103_515_245).wrapping_add(12_345);
        (seed >> 16) as usize % bound + 1
    };
    let mut written = 0;
    let mut consumed = Vec::with_capacity(total);
    let mut pending: Option<usize> = None;
    let mut steps = 0;
    while consumed.len() < total {
        steps += 1;
        assert!(steps < 10 * total);
        if written < total {
            let size = pending.unwrap_or_else(|| next(60).min(total - written));
            match rb.try_write(&produced[written..written + size]) {
                Some(n) => {
                    assert_eq!(n, size);
                    written += n;
                    pending = None;
                }
                None => pending = Some(size),
            }
        }
        let mut buf = vec![0u8; next(70)];
        if let Some(n) = rb.try_read(&mut buf) {
            assert!(n > 0);
            consumed.extend_from_slice(&buf[..n]);
        }
    }
    assert_eq!(written, total);
    assert_eq!(consumed, produced);
    assert!(rb.is_empty());
}
