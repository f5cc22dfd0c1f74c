use command_channel::buffer::Buffer;
use command_channel::ready::Ready;

#[test]
fn buffer_starts_empty() {
    let buffer = Buffer::with_capacity(5);
    assert_eq!(buffer.capacity(), 5);
    assert_eq!(buffer.available_data(), 0);
    assert_eq!(buffer.available_space(), 5);
    assert_eq!(buffer.data(), b"");
}

#[test]
fn buffer_takes_what_fits() {
    let mut buffer = Buffer::with_capacity(5);
    assert_eq!(buffer.write(b"abc"), 3);
    assert_eq!(buffer.write(b"defg"), 2);
    assert_eq!(buffer.data(), b"abcde");
    assert_eq!(buffer.available_space(), 0);
}

#[test]
fn consumed_bytes_leave_a_gap_up_to_half() {
    let mut buffer = Buffer::with_capacity(10);
    buffer.write(b"abcdefgh");
    assert_eq!(buffer.consume(5), 5);
    assert_eq!(buffer.data(), b"fgh");
    assert_eq!(buffer.available_space(), 2);
    assert_eq!(buffer.consume(1), 1);
    assert_eq!(buffer.data(), b"gh");
    assert_eq!(buffer.available_space(), 8);
    assert_eq!(buffer.consume(9), 2);
    assert_eq!(buffer.data(), b"");
}

#[test]
fn filling_closes_the_gap_when_space_runs_low() {
    let mut buffer = Buffer::with_capacity(10);
    buffer.write(b"abcd");
    buffer.consume(2);
    assert_eq!(buffer.available_space(), 6);
    buffer.write(b"e");
    assert_eq!(buffer.available_space(), 5);
    buffer.write(b"f");
    assert_eq!(buffer.data(), b"cdef");
    assert_eq!(buffer.available_space(), 6);
}

#[test]
fn shift_closes_the_gap() {
    let mut buffer = Buffer::with_capacity(10);
    buffer.write(b"abcde");
    buffer.consume(3);
    buffer.shift();
    assert_eq!(buffer.data(), b"de");
    assert_eq!(buffer.available_space(), 8);
}

#[test]
fn buffer_grows_and_never_shrinks() {
    let mut buffer = Buffer::with_capacity(3);
    buffer.write(b"abc");
    assert!(buffer.grow(6));
    assert!(!buffer.grow(2));
    assert_eq!(buffer.capacity(), 6);
    assert_eq!(buffer.data(), b"abc");
    assert_eq!(buffer.available_space(), 3);
}

#[test]
fn flags_are_set_and_cleared() {
    let mut flags = Ready::readable() | Ready::hup();
    assert_eq!(flags, Ready(9));
    assert!(flags.is_readable());
    assert!(!flags.is_writable());
    flags.insert(Ready::writable());
    assert!(flags.is_writable());
    flags.remove(Ready::readable());
    assert!(!flags.is_readable());
    assert_eq!(flags & Ready::hup(), Ready::hup());
}
