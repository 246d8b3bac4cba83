use chess_perft::buffer::StaticBuffer;

#[test]
fn buffer_basic_usage() {
    let mut buffer = StaticBuffer::<u8, 1024>::new();
    assert_eq!(buffer.len(), 0);

    buffer.add(99);
    assert_eq!(buffer.len(), 1);
    assert_eq!(buffer.get(0), 99);

    buffer.add(42);
    assert_eq!(buffer.len(), 2);
    assert_eq!(buffer.get(0), 99);
    assert_eq!(buffer.get(1), 42);

    assert!(buffer.contains(99));
    assert!(buffer.contains(42));

    assert_eq!(buffer.as_slice(), &[99, 42]);

    buffer.reset();
    assert_eq!(buffer.len(), 0);
}

#[test]
fn buffer_restore_cursor_keeps_prefix() {
    let mut buffer = StaticBuffer::<u8, 8>::new();
    buffer.add(1);
    buffer.add(2);
    buffer.add(3);
    buffer.restore_cursor(1);
    assert_eq!(buffer.as_slice(), &[1]);
    assert!(!buffer.contains(2));
}
