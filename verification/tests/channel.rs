//! Channels over real socket pairs. The sockets stay nonblocking all along: what a blocking
//! channel would wait for has always been sent before it is asked for.

use command_channel::channel::Channel;
use command_channel::error::ChannelError;
use command_channel::ready::Ready;
use command_channel::step::{
    BlockingSwitch, FlushStep, MessageStep, ReadableStep, Received, RunStep, Sent, WritableStep,
};
use mio::net::UnixStream;
use std::io::{ErrorKind, Read, Write};

#[derive(Debug, PartialEq)]
struct Serializable(u32);

type TestChannel = Channel<Serializable, Serializable>;

fn encode(message: &Serializable) -> Result<String, serde_json::Error> {
    serde_json::to_string(&message.0)
}

fn decode(text: &str) -> Result<Serializable, serde_json::Error> {
    serde_json::from_str::<u32>(text).map(Serializable)
}

fn switched() -> BlockingSwitch {
    BlockingSwitch {
        fd: 3,
        outcome: Ok(()),
    }
}

fn generate(buffer_size: usize, max_buffer_size: usize) -> Result<(TestChannel, TestChannel), ChannelError> {
    let pair = UnixStream::pair().map(|(command, proxy)| (command, proxy, switched()));
    Channel::generate(pair, buffer_size, max_buffer_size)
}

fn fresh(buffer_size: usize, max_buffer_size: usize) -> TestChannel {
    let (sock, _peer) = UnixStream::pair().expect("no socket pair");
    Channel::new(sock, buffer_size, max_buffer_size)
}

fn receive(sock: &mut UnixStream, limit: usize) -> Received {
    let mut bytes = vec![0; limit];
    match sock.read(&mut bytes) {
        Ok(count) => {
            bytes.truncate(count);
            Received::Bytes(bytes)
        }
        Err(error) if error.kind() == ErrorKind::WouldBlock => Received::WouldBlock(error),
        Err(error) => Received::Failed(error),
    }
}

fn send(channel: &mut TestChannel) -> Sent {
    match (&channel.sock).write(channel.pending()) {
        Ok(count) => Sent::Count(count),
        Err(error) if error.kind() == ErrorKind::WouldBlock => Sent::WouldBlock(error),
        Err(error) => Sent::Failed(error),
    }
}

fn write_message(channel: &mut TestChannel, message: &Serializable) -> Result<(), ChannelError> {
    let mut step = channel.write_message(message, encode);
    loop {
        match step {
            FlushStep::Write => {
                let sent = send(channel);
                step = channel.message_sent(sent);
            }
            FlushStep::Done(result) => return result,
        }
    }
}

fn read_message(channel: &mut TestChannel) -> Result<Serializable, ChannelError> {
    loop {
        match channel.read_message(decode) {
            MessageStep::Read { limit } => {
                let received = receive(&mut channel.sock, limit);
                channel.message_received(received)?;
            }
            MessageStep::Done(result) => return result,
        }
    }
}

fn run(channel: &mut TestChannel) -> Result<(), ChannelError> {
    let mut step = channel.run();
    loop {
        match step {
            RunStep::Read {
                count,
                limit,
                then_write,
            } => {
                let received = receive(&mut channel.sock, limit);
                step = channel.run_received(then_write, count, received);
            }
            RunStep::Write { count } => {
                let sent = send(channel);
                step = channel.run_sent(count, sent);
            }
            RunStep::Done(result) => return result,
        }
    }
}

fn would_block() -> std::io::Error {
    std::io::Error::from(ErrorKind::WouldBlock)
}

fn broken() -> std::io::Error {
    std::io::Error::from(ErrorKind::BrokenPipe)
}

fn millis(count: u128) -> u128 {
    count * 1_000_000
}

#[test]
fn unblock_a_channel() {
    let (mut blocking, _nonblocking) =
        generate(1000, 10000).expect("could not generate blocking channels");
    assert!(blocking.nonblocking(switched()).is_ok());
    assert!(!blocking.is_blocking());
}

#[test]
fn generate_blocking_and_nonblocking_channels() {
    let (blocking_channel, nonblocking_channel) =
        generate(1000, 10000).expect("could not generatie blocking channels");

    assert!(blocking_channel.is_blocking());
    assert!(!nonblocking_channel.is_blocking());

    let (nonblocking_channel_1, nonblocking_channel_2): (TestChannel, TestChannel) =
        Channel::generate_nonblocking(UnixStream::pair(), 1000, 10000)
            .expect("could not generatie nonblocking channels");

    assert!(!nonblocking_channel_1.is_blocking());
    assert!(!nonblocking_channel_2.is_blocking());
}

#[test]
fn write_and_read_message_blocking() {
    let (mut blocking_channel, mut nonblocking_channel) =
        generate(1000, 10000).expect("Could not create nonblocking channel");

    let message_to_send = Serializable(42);

    nonblocking_channel
        .blocking(switched())
        .expect("Could not block channel");
    write_message(&mut nonblocking_channel, &message_to_send)
        .expect("Could not write message on channel");

    println!("we wrote a message!");

    println!("reading message..");
    let message =
        read_message(&mut blocking_channel).expect("Could not read message on channel");
    println!("read message!");

    assert_eq!(message, Serializable(42));
}

#[test]
fn read_message_blocking_with_timeout_fails() {
    let (mut reading_channel, mut writing_channel) =
        generate(1000, 10000).expect("Could not create nonblocking channel");
    writing_channel
        .blocking(switched())
        .expect("Could not block channel");

    let timeout = Some(millis(100));
    let limit = match reading_channel.read_message_blocking_timeout(timeout, 0, decode) {
        MessageStep::Read { limit } => limit,
        MessageStep::Done(result) => panic!("{:?}", result),
    };

    // the message comes in after 200 milliseconds
    write_message(&mut writing_channel, &Serializable(200))
        .expect("Could not write message on channel");
    let received = receive(&mut reading_channel.sock, limit);
    reading_channel
        .message_received(received)
        .expect("error with receiving message");

    let arrived_too_late =
        reading_channel.read_message_blocking_timeout(timeout, millis(200), decode);
    assert!(matches!(
        arrived_too_late,
        MessageStep::Done(Err(ChannelError::TimeoutReached(100_000_000)))
    ));
}

#[test]
fn read_message_blocking_with_timeout_succeeds() {
    let (mut reading_channel, mut writing_channel) =
        generate(1000, 10000).expect("Could not create nonblocking channel");
    writing_channel
        .blocking(switched())
        .expect("Could not block channel");

    let timeout = Some(millis(200));
    let limit = match reading_channel.read_message_blocking_timeout(timeout, 0, decode) {
        MessageStep::Read { limit } => limit,
        MessageStep::Done(result) => panic!("{:?}", result),
    };

    // the message comes in after 100 milliseconds
    write_message(&mut writing_channel, &Serializable(100))
        .expect("Could not write message on channel");
    let received = receive(&mut reading_channel.sock, limit);
    reading_channel
        .message_received(received)
        .expect("error with receiving message");

    match reading_channel.read_message_blocking_timeout(timeout, millis(100), decode) {
        MessageStep::Done(Ok(arrived_on_time)) => assert_eq!(arrived_on_time, Serializable(100)),
        other => panic!("{:?}", other),
    }
}

#[test]
fn exhaustive_use_of_nonblocking_channels() {
    // - two nonblocking channels A and B, identical
    let (mut channel_a, mut channel_b) =
        generate(1000, 10000).expect("Could not create nonblocking channel");
    channel_a
        .nonblocking(switched())
        .expect("Could not block channel");

    // write on A
    write_message(&mut channel_a, &Serializable(1)).expect("Could not write message on channel");

    // set B as readable, normally mio tells when to, by giving events
    channel_b.handle_events(Ready::readable());

    // read on B
    let should_err = read_message(&mut channel_b);
    assert!(should_err.is_err());

    // write another message on A
    write_message(&mut channel_a, &Serializable(2)).expect("Could not write message on channel");

    // insert a handle_events Ready::writable on A
    channel_a.handle_events(Ready::writable());

    // flush A with run()
    run(&mut channel_a).expect("Failed to run the channel");

    // receive with B using run()
    run(&mut channel_b).expect("Failed to run the channel");

    // use read_message() twice on B, check them
    let message_1 = read_message(&mut channel_b).expect("Could not read message on channel");
    assert_eq!(message_1, Serializable(1));

    let message_2 = read_message(&mut channel_b).expect("Could not read message on channel");
    assert_eq!(message_2, Serializable(2));
}

#[test]
fn generate_reports_failures() {
    let result: Result<(TestChannel, TestChannel), ChannelError> =
        Channel::generate(Err(broken()), 10, 10);
    assert!(matches!(result, Err(ChannelError::Read(_))));

    let result: Result<(TestChannel, TestChannel), ChannelError> =
        Channel::generate_nonblocking(Err(broken()), 10, 10);
    assert!(matches!(result, Err(ChannelError::Read(_))));

    let pair = UnixStream::pair().map(|(command, proxy)| {
        let switch = BlockingSwitch {
            fd: 7,
            outcome: Err("no".to_string()),
        };
        (command, proxy, switch)
    });
    let result: Result<(TestChannel, TestChannel), ChannelError> = Channel::generate(pair, 10, 10);
    match result {
        Err(ChannelError::BlockingStatus { fd, error }) => {
            assert_eq!(fd, 7);
            assert_eq!(error, "no");
        }
        _ => panic!("the switch failed"),
    }

    let result: Result<TestChannel, ChannelError> = Channel::from_path(Err(broken()), 10, 10);
    assert!(matches!(result, Err(ChannelError::Connection(Some(_)))));
}

#[test]
fn from_path_gives_a_nonblocking_channel() {
    let (sock, _peer) = UnixStream::pair().expect("no socket pair");
    let channel: TestChannel = Channel::from_path(Ok(sock), 10, 20).expect("connected");
    assert!(!channel.is_blocking());
    assert_eq!(channel.interest, Ready::readable());
    assert_eq!(channel.readiness(), Ready::empty());
    assert_eq!(channel.back_buf.capacity(), 10);
}

#[test]
fn failed_switch_leaves_the_channel() {
    let mut channel = fresh(10, 10);
    let switch = BlockingSwitch {
        fd: 5,
        outcome: Err("bad descriptor".to_string()),
    };
    assert!(matches!(
        channel.blocking(switch),
        Err(ChannelError::BlockingStatus { fd: 5, .. })
    ));
    assert!(!channel.is_blocking());
}

#[test]
fn into_keeps_the_state() {
    let mut channel = fresh(10, 20);
    assert!(matches!(
        channel.write_message(&Serializable(7), encode),
        FlushStep::Done(Ok(()))
    ));
    let channel: Channel<u8, u8> = channel.into();
    assert_eq!(channel.back_buf.data(), b"7\0");
    assert_eq!(channel.interest, Ready(3));
}

#[test]
fn events_add_up() {
    let mut channel = fresh(10, 20);
    channel.handle_events(Ready::writable());
    assert_eq!(channel.readiness(), Ready::empty());
    channel.handle_events(Ready::readable());
    assert_eq!(channel.readiness, Ready(3));
    assert_eq!(channel.readiness(), Ready::readable());
}

#[test]
fn reading_and_writing_are_refused_unless_ready() {
    let mut channel = fresh(10, 20);
    assert!(matches!(
        channel.readable(),
        ReadableStep::Done(Err(ChannelError::Connection(None)))
    ));
    channel.handle_events(Ready::writable());
    assert!(matches!(
        channel.writable(),
        WritableStep::Done(Err(ChannelError::Connection(None)))
    ));
    assert!(matches!(channel.run(), RunStep::Done(Ok(()))));
}

#[test]
fn full_front_buffer_stops_the_reading() {
    let mut channel = fresh(4, 4);
    channel.handle_events(Ready::readable());
    assert!(matches!(
        channel.readable(),
        ReadableStep::Read { count: 0, limit: 4 }
    ));
    let step = channel.readable_received(0, Received::Bytes(vec![49, 50, 51]));
    assert!(matches!(step, ReadableStep::Read { count: 3, limit: 1 }));
    let step = channel.readable_received(3, Received::Bytes(vec![52]));
    assert!(matches!(step, ReadableStep::Done(Ok(4))));
    assert_eq!(channel.interest, Ready::empty());
    assert_eq!(channel.readiness, Ready::readable());
}

#[test]
fn reading_ends_when_the_socket_would_block() {
    let mut channel = fresh(4, 4);
    channel.handle_events(Ready::readable());
    channel.readable();
    channel.readable_received(0, Received::Bytes(vec![49, 50]));
    let step = channel.readable_received(2, Received::WouldBlock(would_block()));
    assert!(matches!(step, ReadableStep::Done(Ok(2))));
    assert_eq!(channel.readiness, Ready::empty());
    assert_eq!(channel.interest, Ready::readable());
    assert!(matches!(
        channel.readable(),
        ReadableStep::Done(Err(ChannelError::Connection(None)))
    ));
}

#[test]
fn peer_that_is_gone_ends_the_reading() {
    let (mut channel, peer) = {
        let (sock, peer) = UnixStream::pair().expect("no socket pair");
        let channel: TestChannel = Channel::new(sock, 10, 10);
        (channel, peer)
    };
    drop(peer);
    channel.handle_events(Ready::readable());
    assert!(matches!(
        run(&mut channel),
        Err(ChannelError::NoByteToRead)
    ));
    assert_eq!(channel.interest, Ready::empty());
    assert_eq!(channel.readiness, Ready::hup());
    // events do not revive it
    channel.handle_events(Ready::readable());
    assert!(matches!(
        channel.readable(),
        ReadableStep::Done(Err(ChannelError::Connection(None)))
    ));
}

#[test]
fn failed_socket_ends_the_reading() {
    let mut channel = fresh(4, 4);
    channel.handle_events(Ready(3));
    channel.readable();
    let step = channel.readable_received(0, Received::Failed(broken()));
    match step {
        ReadableStep::Done(Err(ChannelError::Read(error))) => {
            assert_eq!(error.kind(), ErrorKind::BrokenPipe)
        }
        _ => panic!("the socket failed"),
    }
    assert_eq!(channel.interest, Ready::empty());
    assert_eq!(channel.readiness, Ready::empty());
}

#[test]
fn writing_drops_what_the_socket_took() {
    let mut channel = fresh(10, 10);
    assert!(matches!(
        channel.write_message(&Serializable(12345), encode),
        FlushStep::Done(Ok(()))
    ));
    channel.handle_events(Ready::writable());
    assert!(matches!(
        channel.writable(),
        WritableStep::Write { count: 0 }
    ));
    assert!(matches!(
        channel.writable_sent(0, Sent::Count(2)),
        WritableStep::Write { count: 2 }
    ));
    assert_eq!(channel.back_buf.data(), b"345\0");
    assert!(matches!(
        channel.writable_sent(2, Sent::WouldBlock(would_block())),
        WritableStep::Done(Ok(2))
    ));
    assert_eq!(channel.readiness, Ready::empty());
    channel.handle_events(Ready::writable());
    assert!(matches!(
        channel.writable(),
        WritableStep::Write { count: 0 }
    ));
    assert!(matches!(
        channel.writable_sent(0, Sent::Count(4)),
        WritableStep::Done(Ok(4))
    ));
    assert_eq!(channel.interest, Ready::readable());
    assert_eq!(channel.back_buf.available_data(), 0);
}

#[test]
fn socket_that_takes_nothing_ends_the_writing() {
    let mut channel = fresh(10, 10);
    channel.write_message(&Serializable(1), encode);
    channel.handle_events(Ready::writable());
    channel.writable();
    assert!(matches!(
        channel.writable_sent(0, Sent::Count(0)),
        WritableStep::Done(Err(ChannelError::NoByteWritten))
    ));
    assert_eq!(channel.interest, Ready::empty());
    assert_eq!(channel.readiness, Ready(10));
    assert_eq!(channel.back_buf.data(), b"1\0");
}

#[test]
fn failed_socket_ends_the_writing() {
    let mut channel = fresh(10, 10);
    channel.write_message(&Serializable(1), encode);
    channel.handle_events(Ready::writable());
    channel.writable();
    assert!(matches!(
        channel.writable_sent(0, Sent::Failed(broken())),
        WritableStep::Done(Err(ChannelError::Read(_)))
    ));
    assert_eq!(channel.interest, Ready::empty());
    assert_eq!(channel.readiness, Ready::empty());
}

#[test]
fn run_reads_and_then_writes() {
    let (mut channel_a, mut channel_b) = generate(100, 100).expect("no channels");
    channel_a.nonblocking(switched()).expect("switched");
    write_message(&mut channel_a, &Serializable(1)).expect("written");
    write_message(&mut channel_b, &Serializable(2)).expect("written");
    channel_b.handle_events(Ready::writable());
    run(&mut channel_b).expect("flushed");
    channel_a.handle_events(Ready(3));
    assert!(matches!(
        channel_a.run(),
        RunStep::Read {
            count: 0,
            limit: 100,
            then_write: true
        }
    ));
    run(&mut channel_a).expect("read and flushed");
    assert_eq!(read_message(&mut channel_a).expect("read"), Serializable(2));
    channel_b.handle_events(Ready::readable());
    run(&mut channel_b).expect("read");
    assert_eq!(read_message(&mut channel_b).expect("read"), Serializable(1));
}

fn with_front(buffer_size: usize, max_buffer_size: usize, bytes: &[u8]) -> TestChannel {
    let mut channel = fresh(buffer_size, max_buffer_size);
    channel
        .message_received(Received::Bytes(bytes.to_vec()))
        .expect("there is space");
    channel
}

#[test]
fn bytes_that_are_no_text_stay() {
    let mut channel = with_front(10, 10, &[49, 255, 0]);
    let mut called = false;
    let step = channel.read_message(|text| {
        called = true;
        decode(text)
    });
    match step {
        MessageStep::Done(Err(ChannelError::InvalidCharSet(error))) => {
            assert_eq!(error, "invalid utf-8 sequence of 1 bytes from index 1")
        }
        other => panic!("{:?}", other),
    }
    assert!(!called);
    // the message is still there
    assert!(matches!(
        channel.read_message(decode),
        MessageStep::Done(Err(ChannelError::InvalidCharSet(_)))
    ));
}

#[test]
fn message_that_cannot_be_decoded_stays() {
    let mut channel = with_front(10, 10, b"12x\0");
    assert!(matches!(
        channel.read_message(decode),
        MessageStep::Done(Err(ChannelError::Serde(_)))
    ));
    let step = channel.read_message(|text| {
        assert_eq!(text, "12x");
        Ok(Serializable(12))
    });
    assert!(matches!(step, MessageStep::Done(Ok(Serializable(12)))));
    assert!(matches!(
        channel.read_message(decode),
        MessageStep::Done(Err(ChannelError::NothingRead))
    ));
}

#[test]
fn decoder_gets_the_text_up_to_the_end() {
    let mut channel = with_front(20, 20, "h\u{e9}\u{1F600}\0rest".as_bytes());
    let step = channel.read_message(|text| {
        assert_eq!(text, "h\u{e9}\u{1F600}");
        Ok(Serializable(1))
    });
    assert!(matches!(step, MessageStep::Done(Ok(_))));
}

#[test]
fn accepted_message_leaves_the_front_buffer() {
    let mut channel = with_front(10, 10, b"1\x002\0");
    assert!(matches!(
        channel.accept_message(1, Ok(Serializable(9))),
        Ok(Serializable(9))
    ));
    assert!(matches!(
        channel.read_message(decode),
        MessageStep::Done(Ok(Serializable(2)))
    ));
}

#[test]
fn full_front_buffer_grows_by_steps() {
    let mut channel = with_front(3, 8000, b"123");
    for capacity in [5003, 8000] {
        channel.handle_events(Ready::readable());
        channel.interest = Ready::empty();
        assert!(matches!(
            channel.read_message(decode),
            MessageStep::Done(Err(ChannelError::NothingRead))
        ));
        assert_eq!(channel.interest, Ready::readable());
        let held = if capacity == 5003 { 3 } else { 5003 };
        match channel.readable() {
            ReadableStep::Read { count, limit } => {
                assert_eq!(count, 0);
                assert_eq!(limit, capacity - held);
                channel.readable_received(0, Received::Bytes(vec![52; limit]));
            }
            other => panic!("{:?}", other),
        }
    }
    // it cannot grow any further
    assert!(matches!(
        channel.read_message(decode),
        MessageStep::Done(Err(ChannelError::NothingRead))
    ));
    channel.handle_events(Ready::readable());
    assert!(matches!(channel.readable(), ReadableStep::Done(Ok(0))));
    channel.blocking(switched()).expect("switched");
    assert!(matches!(
        channel.read_message(decode),
        MessageStep::Done(Err(ChannelError::BufferFull))
    ));
}

#[test]
fn waiting_for_a_message_grows_the_front_buffer() {
    let mut channel = with_front(3, 10, b"123");
    assert!(matches!(
        channel.read_message_blocking_timeout(None, 0, decode),
        MessageStep::Read { limit: 7 }
    ));
    channel
        .message_received(Received::Bytes(b"45\0".to_vec()))
        .expect("there is space");
    assert!(matches!(
        channel.read_message_blocking_timeout(None, 0, decode),
        MessageStep::Done(Ok(Serializable(12345)))
    ));
}

#[test]
fn timeout_comes_before_a_message_that_is_there() {
    let mut channel = with_front(10, 10, b"1\0");
    assert!(matches!(
        channel.read_message_blocking_timeout(Some(5), 5, decode),
        MessageStep::Done(Err(ChannelError::TimeoutReached(5)))
    ));
    assert!(matches!(
        channel.read_message_blocking_timeout(Some(5), 4, decode),
        MessageStep::Done(Ok(Serializable(1)))
    ));
}

#[test]
fn waiting_for_a_message_ends_with_the_socket() {
    let mut channel = fresh(10, 10);
    assert!(matches!(
        channel.message_received(Received::Bytes(vec![])),
        Err(ChannelError::NoByteToRead)
    ));
    assert!(matches!(
        channel.message_received(Received::WouldBlock(would_block())),
        Err(ChannelError::Read(_))
    ));
    assert!(matches!(
        channel.message_received(Received::Failed(broken())),
        Err(ChannelError::Read(_))
    ));
}

#[test]
fn back_buffer_grows_to_what_is_needed() {
    let mut channel = fresh(4, 8);
    assert!(matches!(
        channel.write_message(&Serializable(123), encode),
        FlushStep::Done(Ok(()))
    ));
    assert_eq!(channel.back_buf.capacity(), 4);
    assert_eq!(channel.interest, Ready(3));
    assert!(matches!(
        channel.write_message(&Serializable(45), encode),
        FlushStep::Done(Ok(()))
    ));
    assert_eq!(channel.back_buf.capacity(), 7);
    assert_eq!(channel.back_buf.data(), b"123\x0045\0");
    // one byte too many
    assert!(matches!(
        channel.write_message(&Serializable(6), encode),
        FlushStep::Done(Err(ChannelError::MessageTooLarge(7)))
    ));
    assert_eq!(channel.back_buf.data(), b"123\x0045\0");
}

#[test]
fn gap_in_the_back_buffer_is_used() {
    let mut channel = fresh(8, 8);
    channel.write_message(&Serializable(123), encode);
    channel.handle_events(Ready::writable());
    channel.writable();
    channel.writable_sent(0, Sent::Count(3));
    assert!(matches!(
        channel.write_message(&Serializable(456789), encode),
        FlushStep::Done(Ok(()))
    ));
    assert_eq!(channel.back_buf.capacity(), 8);
    assert_eq!(channel.back_buf.data(), b"\x00456789\0");
}

#[test]
fn message_that_cannot_be_encoded_is_empty() {
    let mut channel = fresh(8, 8);
    let step = channel.write_message(&Serializable(1), |_| {
        Err(serde_json::from_str::<u32>("x").expect_err("no number"))
    });
    assert!(matches!(step, FlushStep::Done(Ok(()))));
    assert_eq!(channel.back_buf.data(), b"\0");
}

#[test]
fn blocking_write_sends_at_once() {
    let mut channel = fresh(8, 8);
    channel.blocking(switched()).expect("switched");
    assert!(matches!(
        channel.write_message(&Serializable(123), encode),
        FlushStep::Write
    ));
    assert_eq!(channel.interest, Ready::readable());
    assert!(matches!(
        channel.message_sent(Sent::Count(1)),
        FlushStep::Write
    ));
    assert_eq!(channel.back_buf.data(), b"23\0");
    assert!(matches!(
        channel.message_sent(Sent::Count(3)),
        FlushStep::Done(Ok(()))
    ));
    assert_eq!(channel.back_buf.available_data(), 0);
    // a socket that takes no more is an error, and the data that waits goes out with the next
    // message
    channel.write_message(&Serializable(4), encode);
    match channel.message_sent(Sent::Failed(broken())) {
        FlushStep::Done(Err(ChannelError::Read(error))) => {
            assert_eq!(error.kind(), ErrorKind::BrokenPipe)
        }
        other => panic!("{:?}", other),
    }
    match channel.message_sent(Sent::WouldBlock(would_block())) {
        FlushStep::Done(Err(ChannelError::Read(error))) => {
            assert_eq!(error.kind(), ErrorKind::WouldBlock)
        }
        other => panic!("{:?}", other),
    }
    assert_eq!(channel.pending(), b"4\0");
    channel.write_message(&Serializable(5), encode);
    assert_eq!(channel.back_buf.data(), b"4\x005\0");
    assert!(matches!(
        channel.message_sent(Sent::Count(0)),
        FlushStep::Done(Err(ChannelError::NoByteWritten))
    ));
    assert!(matches!(
        channel.write_message(&Serializable(123456), encode),
        FlushStep::Done(Err(ChannelError::MessageTooLarge(8)))
    ));
}

#[test]
fn blocking_write_to_a_gone_peer_fails() {
    let mut channel = fresh(8, 8);
    channel.blocking(switched()).expect("switched");
    assert!(matches!(
        write_message(&mut channel, &Serializable(1)),
        Err(ChannelError::Read(_))
    ));
    assert_eq!(channel.pending(), b"1\0");
}

#[test]
fn messages_arrive_whole_however_they_are_cut() {
    for cut in [1, 2, 3, 5] {
        let mut sender = fresh(4, 100);
        let mut receiver = fresh(4, 100);
        for number in [1, 22, 333, 4444] {
            assert!(matches!(
                sender.write_message(&Serializable(number), encode),
                FlushStep::Done(Ok(()))
            ));
        }
        let mut read = vec![];
        loop {
            match receiver.read_message(decode) {
                MessageStep::Done(Ok(message)) => read.push(message),
                MessageStep::Done(Err(ChannelError::NothingRead)) => {
                    sender.handle_events(Ready::writable());
                    receiver.handle_events(Ready::readable());
                    let limit = match receiver.readable() {
                        ReadableStep::Read { limit, .. } => limit,
                        other => panic!("{:?}", other),
                    };
                    if let WritableStep::Done(_) = sender.writable() {
                        break;
                    }
                    let count = cut.min(limit).min(sender.back_buf.available_data());
                    let bytes = sender.back_buf.data()[..count].to_vec();
                    sender.writable_sent(0, Sent::Count(count));
                    receiver.readable_received(0, Received::Bytes(bytes));
                }
                other => panic!("{:?}", other),
            }
        }
        assert_eq!(
            read,
            vec![
                Serializable(1),
                Serializable(22),
                Serializable(333),
                Serializable(4444)
            ]
        );
    }
}

/// A fresh channel whose socket is ready to be read from and written to.
fn ready_channel(buffer_size: usize) -> TestChannel {
    let mut channel = fresh(buffer_size, 100);
    channel.handle_events(Ready(3));
    channel
}

fn is_refused(step: ReadableStep) -> bool {
    matches!(step, ReadableStep::Done(Err(ChannelError::Connection(None))))
}

#[test]
fn finished_reading_is_refused_next() {
    let mut full = ready_channel(2);
    assert!(matches!(full.readable(), ReadableStep::Read { count: 0, limit: 2 }));
    let step = full.readable_received(0, Received::Bytes(vec![49, 0]));
    assert!(matches!(step, ReadableStep::Done(Ok(2))));
    assert_eq!(full.interest, Ready::empty());
    assert_eq!(full.readiness, Ready(3));
    assert!(is_refused(full.readable()));

    let mut starts_full = with_front(2, 100, &[49, 0]);
    starts_full.handle_events(Ready(3));
    assert!(matches!(starts_full.readable(), ReadableStep::Done(Ok(0))));
    assert!(is_refused(starts_full.readable()));

    let mut drained = ready_channel(10);
    let step = drained.readable_received(0, Received::WouldBlock(would_block()));
    assert!(matches!(step, ReadableStep::Done(Ok(0))));
    assert_eq!(drained.readiness, Ready::writable());
    assert!(is_refused(drained.readable()));

    let mut gone = ready_channel(10);
    let step = gone.readable_received(0, Received::Bytes(vec![]));
    assert!(matches!(step, ReadableStep::Done(Err(ChannelError::NoByteToRead))));
    assert!(is_refused(gone.readable()));

    let mut failed = ready_channel(10);
    let step = failed.readable_received(0, Received::Failed(broken()));
    assert!(matches!(step, ReadableStep::Done(Err(ChannelError::Read(_)))));
    assert!(is_refused(failed.readable()));
}

#[test]
fn finished_writing_is_refused_next() {
    let refused = |channel: &mut TestChannel| {
        matches!(
            channel.writable(),
            WritableStep::Done(Err(ChannelError::Connection(None)))
        )
    };
    let written = || {
        let mut channel = ready_channel(10);
        write_message(&mut channel, &Serializable(12)).expect("written");
        assert!(matches!(channel.writable(), WritableStep::Write { count: 0 }));
        channel
    };

    let mut emptied = written();
    assert!(matches!(
        emptied.writable_sent(0, Sent::Count(3)),
        WritableStep::Done(Ok(3))
    ));
    assert_eq!(emptied.interest, Ready::readable());
    assert!(refused(&mut emptied));

    let mut blocked = written();
    assert!(matches!(
        blocked.writable_sent(0, Sent::WouldBlock(would_block())),
        WritableStep::Done(Ok(0))
    ));
    assert_eq!(blocked.pending(), b"12\0");
    assert!(refused(&mut blocked));
    blocked.handle_events(Ready::writable());
    assert!(matches!(blocked.writable(), WritableStep::Write { count: 0 }));

    let mut gone = written();
    assert!(matches!(
        gone.writable_sent(0, Sent::Count(0)),
        WritableStep::Done(Err(ChannelError::NoByteWritten))
    ));
    assert!(refused(&mut gone));

    let mut failed = written();
    assert!(matches!(
        failed.writable_sent(0, Sent::Failed(broken())),
        WritableStep::Done(Err(ChannelError::Read(_)))
    ));
    assert!(refused(&mut failed));
}

#[test]
fn finished_run_leaves_nothing_to_do() {
    let mut channel = ready_channel(3);
    write_message(&mut channel, &Serializable(12)).expect("written");
    assert!(matches!(
        channel.run(),
        RunStep::Read {
            count: 0,
            limit: 3,
            then_write: true
        }
    ));
    assert!(matches!(
        channel.run_received(true, 0, Received::Bytes(vec![51, 52, 0])),
        RunStep::Write { count: 0 }
    ));
    assert!(matches!(
        channel.run_sent(0, Sent::Count(3)),
        RunStep::Done(Ok(()))
    ));
    assert_eq!(channel.interest, Ready::empty());
    assert_eq!(channel.readiness, Ready(3));
    assert!(matches!(channel.run(), RunStep::Done(Ok(()))));
    assert_eq!(read_message(&mut channel).expect("read"), Serializable(34));

    let mut failed = ready_channel(3);
    assert!(matches!(
        failed.run_received(true, 0, Received::Failed(broken())),
        RunStep::Done(Err(ChannelError::Read(_)))
    ));
    assert!(matches!(failed.run(), RunStep::Done(Ok(()))));
}

#[test]
fn directions_do_not_disturb_each_other() {
    let (mut channel_a, mut channel_b) = generate(100, 100).expect("no channels");
    channel_a.nonblocking(switched()).expect("switched");
    for i in 0..10 {
        write_message(&mut channel_a, &Serializable(i)).expect("written");
        write_message(&mut channel_b, &Serializable(100 + i)).expect("written");
        if i % 3 == 0 {
            channel_a.handle_events(Ready(3));
            run(&mut channel_a).expect("ran");
            channel_b.handle_events(Ready(3));
            run(&mut channel_b).expect("ran");
        }
    }
    channel_a.handle_events(Ready(3));
    run(&mut channel_a).expect("ran");
    for i in 0..10 {
        assert_eq!(
            read_message(&mut channel_b).expect("read"),
            Serializable(i)
        );
        assert_eq!(
            read_message(&mut channel_a).expect("read"),
            Serializable(100 + i)
        );
    }
    assert_eq!(channel_a.pending(), b"");
    assert_eq!(channel_b.pending(), b"");
}
