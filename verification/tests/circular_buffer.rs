use sync_server::server::circular_buffer::CircularBuffer;

#[test]
fn fresh_buffer_has_nothing_to_read() {
    let mut buffer: CircularBuffer<u32> = CircularBuffer::new(4, 2);
    let mut ptr: usize = 0;
    assert_eq!(buffer.read(&mut ptr), Err("Nothing to read"));
    assert_eq!(ptr, 0);
}

#[test]
fn pushed_value_is_read_once_by_each_reader() {
    let mut buffer: CircularBuffer<u32> = CircularBuffer::new(4, 2);
    assert_eq!(buffer.push(7), Ok(1));
    let mut first: usize = 0;
    let mut second: usize = 0;
    assert_eq!(buffer.read(&mut first), Ok(&7));
    assert_eq!(first, 1);
    assert_eq!(buffer.read(&mut second), Ok(&7));
    assert_eq!(second, 1);
    let mut third: usize = 0;
    assert_eq!(buffer.read(&mut third), Err("Already Read"));
    assert_eq!(third, 0);
    assert_eq!(buffer.read(&mut first), Err("Nothing to read"));
}

#[test]
fn first_lap_is_read_in_order() {
    let mut buffer: CircularBuffer<u32> = CircularBuffer::new(5, 1);
    for v in 1..5u32 {
        assert_eq!(buffer.push(v * 10), Ok((v as usize) % 5));
    }
    let mut ptr: usize = 0;
    for v in 1..5u32 {
        assert_eq!(buffer.read(&mut ptr), Ok(&(v * 10)));
    }
    assert_eq!(ptr, 4);
    assert_eq!(buffer.read(&mut ptr), Err("Nothing to read"));
}

#[test]
fn values_stay_in_order_after_wrapping() {
    let mut b: CircularBuffer<char> = CircularBuffer::new(3, 1);
    assert_eq!(b.push('a'), Ok(1));
    assert_eq!(b.push('b'), Ok(2));
    let mut r: usize = 0;
    assert_eq!(b.read(&mut r), Ok(&'a'));
    assert_eq!(b.read(&mut r), Ok(&'b'));
    assert_eq!(b.push('c'), Ok(0));
    assert_eq!(b.push('d'), Ok(1));
    assert_eq!(r, 2);
    assert_eq!(b.read(&mut r), Ok(&'c'));
    assert_eq!(r, 0);
    assert_eq!(b.read(&mut r), Ok(&'d'));
    assert_eq!(r, 1);
    assert_eq!(b.read(&mut r), Err("Nothing to read"));
}

#[test]
fn full_ring_waits_for_its_readers() {
    let mut b: CircularBuffer<char> = CircularBuffer::new(3, 1);
    assert_eq!(b.push('a'), Ok(1));
    assert_eq!(b.push('b'), Ok(2));
    let mut r: usize = 0;
    assert_eq!(b.read(&mut r), Ok(&'a'));
    assert_eq!(b.push('c'), Ok(0));
    assert_eq!(b.push('d'), Ok(1));
    // every slot owes a read: the writer waits
    assert_eq!(b.push('e'), Err("Ring buffer is full"));
    // the reader stands at the write pointer
    assert_eq!(b.read(&mut r), Err("Nothing to read"));
    assert_eq!(r, 1);
}

#[test]
fn many_laps_with_one_reader() {
    let mut b: CircularBuffer<u32> = CircularBuffer::new(4, 1);
    let mut r: usize = 0;
    let mut next_expected: u32 = 0;
    let mut next_pushed: u32 = 0;
    for round in 0..50u32 {
        // keep one slot free, then read a varying number of values
        while next_pushed - next_expected < 3 {
            assert!(b.push(next_pushed).is_ok());
            next_pushed += 1;
        }
        for _ in 0..(round % 3 + 1) {
            assert_eq!(b.read(&mut r), Ok(&next_expected));
            next_expected += 1;
        }
    }
    while next_expected < next_pushed {
        assert_eq!(b.read(&mut r), Ok(&next_expected));
        next_expected += 1;
    }
    assert_eq!(b.read(&mut r), Err("Nothing to read"));
}

#[test]
fn slow_reader_holds_the_writer() {
    let mut b: CircularBuffer<u8> = CircularBuffer::new(3, 2);
    assert_eq!(b.push(1), Ok(1));
    assert_eq!(b.push(2), Ok(2));
    let mut fast: usize = 0;
    let mut slow: usize = 0;
    assert_eq!(b.read(&mut fast), Ok(&1));
    assert_eq!(b.read(&mut fast), Ok(&2));
    assert_eq!(b.read(&mut fast), Err("Nothing to read"));
    assert_eq!(b.read(&mut slow), Ok(&1));
    // slot 0 was read by both readers: it can be written again
    assert_eq!(b.push(3), Ok(0));
    assert_eq!(b.read(&mut fast), Ok(&3));
    assert_eq!(b.read(&mut slow), Ok(&2));
    assert_eq!(b.read(&mut slow), Ok(&3));
    assert_eq!(b.push(4), Ok(1));
    assert_eq!(b.read(&mut fast), Ok(&4));
    assert_eq!(b.read(&mut slow), Ok(&4));
    assert_eq!(b.read(&mut slow), Err("Nothing to read"));
}

#[test]
fn full_ring_waits_for_its_slow_reader() {
    let mut b: CircularBuffer<u8> = CircularBuffer::new(2, 2);
    assert_eq!(b.push(1), Ok(1));
    let mut fast: usize = 0;
    assert_eq!(b.read(&mut fast), Ok(&1));
    assert_eq!(b.push(2), Ok(0));
    assert_eq!(b.read(&mut fast), Ok(&2));
    // slot 0 still owes the slow reader a read: the writer waits
    assert_eq!(b.push(3), Err("Ring buffer is full"));
    // the slow reader is a whole ring behind: its pointer meets the writer's
    let mut slow: usize = 0;
    assert_eq!(b.read(&mut slow), Err("Nothing to read"));
    assert_eq!(b.read(&mut fast), Err("Nothing to read"));
}

#[test]
fn zero_capacity_refuses_everything() {
    let mut buffer: CircularBuffer<u8> = CircularBuffer::new(0, 3);
    assert_eq!(buffer.push(1), Err("Out of bound§"));
    let mut ptr: usize = 0;
    assert_eq!(buffer.read(&mut ptr), Err("Nothing to read"));
}

#[test]
fn capacity_one_ring_is_full_at_once() {
    let mut buffer: CircularBuffer<u8> = CircularBuffer::new(1, 1);
    assert_eq!(buffer.push(9), Ok(0));
    assert_eq!(buffer.push(10), Err("Ring buffer is full"));
    let mut ptr: usize = 0;
    assert_eq!(buffer.read(&mut ptr), Err("Nothing to read"));
    assert_eq!(ptr, 0);
}

#[test]
fn no_accessor_means_nothing_owed() {
    let mut buffer: CircularBuffer<u8> = CircularBuffer::new(3, 0);
    assert_eq!(buffer.push(5), Ok(1));
    let mut ptr: usize = 0;
    assert_eq!(buffer.read(&mut ptr), Err("Already Read"));
    assert_eq!(buffer.push(6), Ok(2));
}

#[test]
fn reader_pointer_stays_acceptable() {
    let mut buffer: CircularBuffer<u32> = CircularBuffer::new(3, 2);
    assert_eq!(buffer.capacity(), 3);
    let mut first: usize = 0;
    let mut second: usize = 0;
    for round in 0..20u32 {
        let _ = buffer.push(round);
        for ptr in [&mut first, &mut second] {
            assert!(buffer.accepts_read_ptr(*ptr));
            let _ = buffer.read(ptr);
            assert!(*ptr < 3);
        }
    }
    let empty: CircularBuffer<u32> = CircularBuffer::new(0, 1);
    assert!(empty.accepts_read_ptr(0));
    assert!(!empty.accepts_read_ptr(1));
}
