use cesu8_stream::buffer::SlidingBuffer;

#[test]
fn new_buffer_is_empty() {
    let buffer = SlidingBuffer::new(16);
    assert_eq!(buffer.capacity(), 16);
    assert_eq!(buffer.start(), 0);
    assert_eq!(buffer.end(), 0);
    assert_eq!(buffer.len(), 0);
    assert!(!buffer.has_data());
    assert_eq!(buffer.remaining_capacity(), 16);
    assert!(buffer.window().is_empty());
}

#[test]
fn append_adds_behind_the_window() {
    let mut buffer = SlidingBuffer::new(8);
    buffer.append(&[1, 2, 3]);
    assert_eq!(buffer.window(), &[1, 2, 3]);
    assert_eq!(buffer.remaining_capacity(), 5);
    buffer.append(&[4, 5]);
    assert_eq!(buffer.window(), &[1, 2, 3, 4, 5]);
    assert_eq!(buffer.end(), 5);
    assert_eq!(buffer.remaining_capacity(), 3);
    assert!(buffer.has_data());
}

#[test]
fn consume_advances_start_only() {
    let mut buffer = SlidingBuffer::new(8);
    buffer.append(&[1, 2, 3, 4, 5]);
    buffer.consume(2);
    assert_eq!(buffer.start(), 2);
    assert_eq!(buffer.end(), 5);
    assert_eq!(buffer.window(), &[3, 4, 5]);
    assert_eq!(buffer.remaining_capacity(), 3);
    buffer.consume(3);
    assert!(!buffer.has_data());
    assert_eq!(buffer.start(), 5);
}

#[test]
fn compact_moves_window_to_front() {
    let mut buffer = SlidingBuffer::new(8);
    buffer.append(&[1, 2, 3, 4, 5, 6]);
    buffer.consume(4);
    assert_eq!(buffer.remaining_capacity(), 2);
    buffer.compact();
    assert_eq!(buffer.start(), 0);
    assert_eq!(buffer.end(), 2);
    assert_eq!(buffer.window(), &[5, 6]);
    assert_eq!(buffer.remaining_capacity(), 6);
    assert_eq!(buffer.capacity(), 8);
}

#[test]
fn compact_at_front_changes_nothing() {
    let mut buffer = SlidingBuffer::new(4);
    buffer.append(&[9, 8]);
    buffer.compact();
    assert_eq!(buffer.start(), 0);
    assert_eq!(buffer.window(), &[9, 8]);
}

#[test]
fn compact_with_overlapping_ranges() {
    let mut buffer = SlidingBuffer::new(8);
    buffer.append(&[0, 1, 2, 3, 4, 5, 6, 7]);
    buffer.consume(1);
    buffer.compact();
    assert_eq!(buffer.window(), &[1, 2, 3, 4, 5, 6, 7]);
    buffer.append(&[8]);
    assert_eq!(buffer.window(), &[1, 2, 3, 4, 5, 6, 7, 8]);
    assert_eq!(buffer.remaining_capacity(), 0);
}

#[test]
fn empty_buffer_of_no_capacity() {
    let mut buffer = SlidingBuffer::new(0);
    assert_eq!(buffer.remaining_capacity(), 0);
    buffer.append(&[]);
    buffer.compact();
    assert!(!buffer.has_data());
}
