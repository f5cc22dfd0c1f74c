//! What each operation of a channel gives for each input, said of the data, the capacities and
//! the flags of the channel.

use crate::buffer::{law_appended_bytes_come_last, law_consumed_bytes_are_gone};
use crate::channel::{
    blocking_read, decoded, encoded_bytes, message_read, nonblocking_read, utf8_error_text,
};
use crate::error::ChannelError;
use crate::model::{law_message_or_none, message_ends_at, no_message, ChannelView};
use crate::ready::{law_flags_that_a_set_has, Ready};
use crate::step::{
    BlockingSwitch, FlushStep, MessageStep, ReadableStep, ReceivedView, RunStep, Sent, WritableStep,
};
use vstd::prelude::*;
use vstd::string::StringSliceAdditionalSpecFns;
use vstd::utf8::{encode_utf8, valid_utf8};

verus! {

/// Law: a fresh channel holds no data in either direction, has the room that was asked for,
/// waits for input, knows of no readiness, and does not block.
pub proof fn law_fresh_channel_is_empty(buffer_size: nat, max_buffer_size: nat)
    ensures
        ({
            let channel = ChannelView::fresh(buffer_size, max_buffer_size);
            &&& channel.front.data.len() == 0 && channel.back.data.len() == 0
            &&& channel.front.gap == 0 && channel.back.gap == 0
            &&& channel.front.capacity == buffer_size && channel.back.capacity == buffer_size
            &&& channel.max_buffer_size == max_buffer_size
            &&& channel.readiness.0 == 0
            &&& channel.interest.0 == 1
            &&& !channel.blocking
        }),
{
}

/// Law: a channel blocks as its socket was last switched to; a failed switch changes nothing and
/// is reported with the file descriptor and the reason.
pub proof fn law_switch_sets_blocking(channel: ChannelView, blocking: bool, switch: BlockingSwitch)
    ensures
        ({
            let (after, result) = channel.switched(blocking, switch);
            &&& result is Ok <==> switch.outcome is Ok
            &&& after.blocking == if switch.outcome is Ok { blocking } else { channel.blocking }
            &&& after == ChannelView { blocking: after.blocking, ..channel }
            &&& switch.outcome matches Err(reason) ==> result == Err::<(), ChannelError>(
                ChannelError::BlockingStatus { fd: switch.fd, error: reason },
            )
        }),
{
}

/// Law: a channel is ready for what it waits for and its socket has.
pub proof fn law_ready_for_what_is_wanted_and_there(channel: ChannelView, flags: Ready)
    ensures
        channel.ready_for(flags) <==> channel.interest.has(flags) && channel.readiness.has(flags),
{
    law_flags_that_a_set_has(channel.interest, channel.readiness, flags);
}

/// Law: to fill the front buffer is refused unless the channel is ready for it. Otherwise the
/// socket is asked for as many bytes as there is room for; a full buffer is no error, and ends
/// the interest in input.
pub proof fn law_reading_starts(channel: ChannelView)
    requires
        channel.wf(),
    ensures
        ({
            let (after, step) = channel.readable_started();
            let ready = channel.interest.has(Ready::readable()) && channel.readiness.has(
                Ready::readable(),
            );
            let room = channel.front.capacity - channel.front.gap - channel.front.data.len();
            &&& step == ReadableStep::Done(Err(ChannelError::Connection(None))) <==> !ready
            &&& step is Read <==> ready && room > 0
            &&& step == ReadableStep::Done(Ok(0)) <==> ready && room == 0
            &&& step matches ReadableStep::Read { count, limit } ==> count == 0 && limit == room
            &&& after == ChannelView {
                interest: if ready && room == 0 {
                    channel.interest.without(Ready::readable())
                } else {
                    channel.interest
                },
                ..channel
            }
        }),
{
    law_ready_for_what_is_wanted_and_there(channel, Ready::readable());
}

/// Law: bytes that came in are kept and counted, and no error. The socket is asked for more as
/// long as there is room; a full buffer ends the reading well, and the interest in input.
pub proof fn law_reading_keeps_and_counts(channel: ChannelView, count: nat, bytes: Seq<u8>)
    requires
        channel.wf(),
        count <= channel.front.data.len(),
        0 < bytes.len() <= channel.front.capacity - channel.front.gap - channel.front.data.len(),
    ensures
        ({
            let (after, step) = channel.readable_received(count, ReceivedView::Bytes(bytes));
            let room = after.front.capacity - after.front.gap - after.front.data.len();
            &&& after.front.data == channel.front.data + bytes
            &&& after.front == channel.front.filled(bytes)
            &&& after.front.capacity == channel.front.capacity
            &&& match step {
                ReadableStep::Read { count: total, limit } => {
                    &&& room > 0
                    &&& total == count + bytes.len()
                    &&& limit == room
                    &&& after == ChannelView { front: after.front, ..channel }
                },
                ReadableStep::Done(Ok(total)) => {
                    &&& room == 0
                    &&& total == count + bytes.len()
                    &&& after == ChannelView {
                        front: after.front,
                        interest: channel.interest.without(Ready::readable()),
                        ..channel
                    }
                },
                ReadableStep::Done(Err(_)) => false,
            }
        }),
{
    law_appended_bytes_come_last(channel.front, bytes);
}

/// Law: without bytes the reading is over, and the data stays. A socket that would block ends it
/// well, with what was counted before, and is no longer ready; an empty read is reported as such,
/// as a hang-up; a failure is reported with its error, and ends all readiness. After an error the
/// channel waits for nothing.
pub proof fn law_reading_ends_without_bytes(channel: ChannelView, count: nat, error: std::io::Error)
    requires
        channel.wf(),
        count <= channel.front.data.len(),
    ensures
        channel.readable_received(count, ReceivedView::Bytes(seq![])) == (
            ChannelView {
                interest: Ready::empty(),
                readiness: channel.readiness.without(Ready::readable()).either(Ready::hup()),
                ..channel
            },
            ReadableStep::Done(Err(ChannelError::NoByteToRead)),
        ),
        ({
            let (after, step) = channel.readable_received(count, ReceivedView::WouldBlock(error));
            &&& after == ChannelView {
                readiness: channel.readiness.without(Ready::readable()),
                ..channel
            }
            &&& step matches ReadableStep::Done(Ok(total)) && total == count
        }),
        channel.readable_received(count, ReceivedView::Failed(error)) == (
            ChannelView { interest: Ready::empty(), readiness: Ready::empty(), ..channel },
            ReadableStep::Done(Err(ChannelError::Read(error))),
        ),
{
}

/// Law: to empty the back buffer is refused unless the channel is ready for it. Otherwise the
/// socket is asked to take the data; with nothing to send that is no error, and ends the interest
/// in writing.
pub proof fn law_writing_starts(channel: ChannelView)
    requires
        channel.wf(),
    ensures
        ({
            let (after, step) = channel.writable_started();
            let ready = channel.interest.has(Ready::writable()) && channel.readiness.has(
                Ready::writable(),
            );
            let idle = channel.back.data.len() == 0;
            &&& step == WritableStep::Done(Err(ChannelError::Connection(None))) <==> !ready
            &&& step == (WritableStep::Write { count: 0 }) <==> ready && !idle
            &&& step == WritableStep::Done(Ok(0)) <==> ready && idle
            &&& after == ChannelView {
                interest: if ready && idle {
                    channel.interest.without(Ready::writable())
                } else {
                    channel.interest
                },
                ..channel
            }
        }),
{
    law_ready_for_what_is_wanted_and_there(channel, Ready::writable());
}

/// Law: bytes that the socket took are gone from the front of what is to be sent, are counted, and
/// are no error. The socket is asked again as long as data is left; where all is gone the writing
/// ends well, and so does the interest in it.
pub proof fn law_writing_drops_and_counts(channel: ChannelView, count: nat, taken: usize)
    requires
        channel.wf(),
        0 < taken <= channel.back.data.len(),
        count + channel.back.data.len() <= usize::MAX,
    ensures
        ({
            let (after, step) = channel.writable_sent(count, Sent::Count(taken));
            &&& channel.back.data.take(taken as int) + after.back.data == channel.back.data
            &&& after.back == channel.back.consumed(taken as nat)
            &&& after.back.capacity == channel.back.capacity
            &&& match step {
                WritableStep::Write { count: total } => {
                    &&& taken < channel.back.data.len()
                    &&& total == count + taken
                    &&& after == ChannelView { back: after.back, ..channel }
                },
                WritableStep::Done(Ok(total)) => {
                    &&& taken == channel.back.data.len()
                    &&& total == count + taken
                    &&& after == ChannelView {
                        back: after.back,
                        interest: channel.interest.without(Ready::writable()),
                        ..channel
                    }
                },
                WritableStep::Done(Err(_)) => false,
            }
        }),
{
    law_consumed_bytes_are_gone(channel.back, taken as nat);
    let after = channel.writable_sent(count, Sent::Count(taken)).0;
    assert(channel.back.data.take(taken as int) + after.back.data =~= channel.back.data);
}

/// Law: where the socket took nothing the writing is over, and the data stays. A socket that would
/// block ends it well, with what was counted before, and is no longer ready; a socket that took no
/// byte is reported as such, as a hang-up; a failure is reported with its error, and ends all
/// readiness. After an error the channel waits for nothing.
pub proof fn law_writing_ends_without_bytes(channel: ChannelView, count: nat, error: std::io::Error)
    requires
        channel.wf(),
        count <= usize::MAX,
    ensures
        channel.writable_sent(count, Sent::Count(0)) == (
            ChannelView {
                interest: Ready::empty(),
                readiness: channel.readiness.either(Ready::hup()),
                ..channel
            },
            WritableStep::Done(Err(ChannelError::NoByteWritten)),
        ),
        ({
            let (after, step) = channel.writable_sent(count, Sent::WouldBlock(error));
            &&& after == ChannelView {
                readiness: channel.readiness.without(Ready::writable()),
                ..channel
            }
            &&& step matches WritableStep::Done(Ok(total)) && total == count
        }),
        channel.writable_sent(count, Sent::Failed(error)) == (
            ChannelView { interest: Ready::empty(), readiness: Ready::empty(), ..channel },
            WritableStep::Done(Err(ChannelError::Read(error))),
        ),
{
}

/// Law: a run first reads, where the channel is ready for that and there is room, and writes
/// otherwise, where it is ready for that and has data to send. It starts without an error, and
/// loses interest in what it found nothing to do for.
pub proof fn law_run_starts(channel: ChannelView)
    requires
        channel.wf(),
    ensures
        ({
            let (after, step) = channel.run_started();
            let reads = channel.interest.has(Ready::readable()) && channel.readiness.has(
                Ready::readable(),
            );
            let writes = channel.interest.has(Ready::writable()) && channel.readiness.has(
                Ready::writable(),
            );
            let room = channel.front.capacity - channel.front.gap - channel.front.data.len();
            let idle = channel.back.data.len() == 0;
            let kept = if reads && room == 0 {
                channel.interest.without(Ready::readable())
            } else {
                channel.interest
            };
            match step {
                RunStep::Read { count, limit, then_write } => {
                    &&& reads && room > 0
                    &&& count == 0 && limit == room && then_write == writes
                    &&& after == channel
                },
                RunStep::Write { count } => {
                    &&& !(reads && room > 0) && writes && !idle
                    &&& count == 0
                    &&& after == ChannelView { interest: kept, ..channel }
                },
                RunStep::Done(result) => {
                    &&& !(reads && room > 0) && !(writes && !idle)
                    &&& result is Ok
                    &&& after == ChannelView {
                        interest: if writes { kept.without(Ready::writable()) } else { kept },
                        ..channel
                    }
                },
            }
        }),
{
    law_reading_starts(channel);
    let read = channel.readable_started().0;
    law_writing_starts(read);
    law_writing_starts(channel);
    let (i, r) = (channel.interest.0, channel.readiness.0);
    assert(((i & !1u16) & 2 == 2) == (i & 2 == 2)) by (bit_vector);
    law_ready_for_what_is_wanted_and_there(channel, Ready::readable());
    law_ready_for_what_is_wanted_and_there(channel, Ready::writable());
}

/// Law: a run reads as the channel does on its own, and goes on to write where the reading ended
/// well: it asks the socket to take what is to be sent, and is over without an error where there
/// is nothing. An error of the reading is the error of the run.
pub proof fn law_run_goes_on_after_reading(
    channel: ChannelView,
    then_write: bool,
    count: nat,
    received: ReceivedView,
)
    requires
        channel.wf(),
        received.within(channel.front.capacity - channel.front.gap - channel.front.data.len()),
        count <= channel.front.data.len(),
    ensures
        ({
            let (after, step) = channel.run_received(then_write, count, received);
            let (read, reading) = channel.readable_received(count, received);
            let writes = read.interest.has(Ready::writable()) && read.readiness.has(
                Ready::writable(),
            );
            let idle = read.back.data.len() == 0;
            match reading {
                ReadableStep::Read { count, limit } => {
                    &&& step == RunStep::Read { count, limit, then_write }
                    &&& after == read
                },
                ReadableStep::Done(Err(error)) => {
                    &&& step == RunStep::Done(Err(error))
                    &&& after == read
                },
                ReadableStep::Done(Ok(_)) => {
                    &&& !then_write ==> step == RunStep::Done(Ok(())) && after == read
                    &&& then_write && writes && !idle ==> step == (RunStep::Write { count: 0 })
                        && after == read
                    &&& then_write && writes && idle ==> step == RunStep::Done(Ok(())) && after
                        == ChannelView {
                        interest: read.interest.without(Ready::writable()),
                        ..read
                    }
                    &&& then_write && !writes ==> step == RunStep::Done(
                        Err(ChannelError::Connection(None)),
                    ) && after == read
                },
            }
        }),
{
    let (read, reading) = channel.readable_received(count, received);
    match received {
        ReceivedView::Bytes(bytes) => law_appended_bytes_come_last(channel.front, bytes),
        _ => {},
    }
    law_writing_starts(read);
}

/// Law: a run writes as the channel does on its own, and is over without an error exactly where the
/// writing ended well.
pub proof fn law_run_ends_as_the_writing(channel: ChannelView, count: nat, sent: Sent)
    ensures
        ({
            let (after, step) = channel.run_sent(count, sent);
            let (wrote, writing) = channel.writable_sent(count, sent);
            &&& after == wrote
            &&& match writing {
                WritableStep::Write { count } => step == (RunStep::Write { count }),
                WritableStep::Done(result) => {
                    &&& step matches RunStep::Done(outcome)
                    &&& result is Ok <==> outcome is Ok
                    &&& result matches Err(error) ==> outcome == Err::<(), ChannelError>(error)
                },
            }
        }),
{
}

/// Law: while a message is waited for, bytes that came in are kept; no bytes, a socket that would
/// block and a failure are errors, each its own, and change nothing.
pub proof fn law_waiting_takes_what_comes_in(
    channel: ChannelView,
    bytes: Seq<u8>,
    error: std::io::Error,
)
    requires
        channel.wf(),
        bytes.len() <= channel.front.capacity - channel.front.gap - channel.front.data.len(),
    ensures
        bytes.len() > 0 ==> {
            let (after, result) = channel.message_received(ReceivedView::Bytes(bytes));
            &&& result is Ok
            &&& after.front.data == channel.front.data + bytes
            &&& after == ChannelView { front: channel.front.filled(bytes), ..channel }
        },
        channel.message_received(ReceivedView::Bytes(seq![])) == (
            channel,
            Err::<(), ChannelError>(ChannelError::NoByteToRead),
        ),
        channel.message_received(ReceivedView::WouldBlock(error)) == (
            channel,
            Err::<(), ChannelError>(ChannelError::Read(error)),
        ),
        channel.message_received(ReceivedView::Failed(error)) == (
            channel,
            Err::<(), ChannelError>(ChannelError::Read(error)),
        ),
{
    law_appended_bytes_come_last(channel.front, bytes);
}

/// Law: a full front buffer grows by 5000 bytes, or up to the maximum where that is less, and never
/// shrinks; one with room stays. Nothing else of the channel changes.
pub proof fn law_front_buffer_grows_by_steps(channel: ChannelView)
    requires
        channel.wf(),
    ensures
        ({
            let after = channel.front_extended();
            let before = channel.front;
            let room = before.capacity - before.gap - before.data.len();
            let aim = if before.capacity + 5000 < channel.max_buffer_size {
                before.capacity + 5000
            } else {
                channel.max_buffer_size
            };
            &&& after == ChannelView { front: after.front, ..channel }
            &&& after.front.data == before.data
            &&& after.front.gap == before.gap
            &&& after.front.capacity == if room == 0 && aim > before.capacity {
                aim
            } else {
                before.capacity
            }
        }),
{
}

/// Law: one turn of waiting for a message times out exactly where the time is up, whatever is
/// there. In time, without a message, the buffer is reported full only where it has no room and has
/// reached the maximum; otherwise the socket is asked for as many bytes as there is room for, which
/// is at least one wherever the buffer may still grow. No flag and no data changes.
pub proof fn law_waiting_asks_for_more<Rx, F: FnOnce(&str) -> Result<Rx, serde_json::Error>>(
    before: ChannelView,
    after: ChannelView,
    timeout: Option<u128>,
    elapsed: u128,
    parse: F,
    step: MessageStep<Rx>,
)
    requires
        before.wf(),
        blocking_read(before, after, timeout, elapsed, parse, step),
    ensures
        ({
            let late = timeout matches Some(most) && elapsed >= most;
            let missing = !before.front.data.contains(0u8);
            let room = before.front.capacity - before.front.gap - before.front.data.len();
            let full = room == 0 && before.front.capacity == before.max_buffer_size;
            &&& late ==> step == MessageStep::<Rx>::Done(
                Err(ChannelError::TimeoutReached(timeout->0)),
            )
            &&& (step matches MessageStep::Done(Err(ChannelError::TimeoutReached(_)))) ==> late
            &&& step == MessageStep::<Rx>::Done(Err(ChannelError::BufferFull)) <==> !late && missing
                && full
            &&& step is Read <==> !late && missing && !full
            &&& step matches MessageStep::Read { limit } ==> {
                &&& limit == after.front.capacity - after.front.gap - after.front.data.len()
                &&& before.front.capacity < before.max_buffer_size ==> limit > 0
                &&& after == before.front_extended()
                &&& after.front.data == before.front.data
            }
            &&& step !is Read && (late || missing) ==> after == before
        }),
{
    let data = before.front.data;
    law_message_or_none(data);
    law_front_buffer_grows_by_steps(before);
    assert(no_message(data) == !data.contains(0u8));
    if !no_message(data) {
        let length = choose|length: int| message_ends_at(data, length);
        assert(message_ends_at(data, length));
    }
}

/// Law: without waiting, nothing can be read exactly where no message has come in whole. The channel
/// then waits for input, and a full front buffer grows.
pub proof fn law_nothing_is_read_without_a_message<
    Rx,
    F: FnOnce(&str) -> Result<Rx, serde_json::Error>,
>(before: ChannelView, after: ChannelView, parse: F, result: Result<Rx, ChannelError>)
    requires
        before.wf(),
        nonblocking_read(before, after, parse, result),
    ensures
        ({
            let missing = !before.front.data.contains(0u8);
            &&& result == Err::<Rx, ChannelError>(ChannelError::NothingRead) <==> missing
            &&& missing ==> after == ChannelView {
                front: before.front_extended().front,
                interest: before.interest.either(Ready::readable()),
                ..before
            }
        }),
{
    let data = before.front.data;
    law_message_or_none(data);
    law_front_buffer_grows_by_steps(before);
    assert(no_message(data) == !data.contains(0u8));
    if !no_message(data) {
        let length = choose|length: int| message_ends_at(data, length);
        assert(message_ends_at(data, length));
    }
}

/// Law: where the data is a message without zero bytes, a zero byte, and anything behind it, a read
/// in time hands the decoder the text of exactly that message. What the decoder gives is the result;
/// a decoded message leaves the channel with its end, and what is behind it is next. A message that
/// could not be decoded, or is no text, stays, and is reported.
pub proof fn law_read_takes_the_first_message<
    Rx,
    F: FnOnce(&str) -> Result<Rx, serde_json::Error>,
>(
    before: ChannelView,
    after: ChannelView,
    timeout: Option<u128>,
    elapsed: u128,
    parse: F,
    result: Result<Rx, ChannelError>,
    message: Seq<u8>,
    rest: Seq<u8>,
)
    requires
        before.wf(),
        before.front.data == message + seq![0u8] + rest,
        !message.contains(0u8),
        timeout is None || elapsed < timeout->0,
        nonblocking_read(before, after, parse, result) || blocking_read(
            before,
            after,
            timeout,
            elapsed,
            parse,
            MessageStep::Done(result),
        ),
    ensures
        if valid_utf8(message) {
            exists|text: &str, parsed: Result<Rx, serde_json::Error>|
                {
                    &&& encode_utf8(text@) == message
                    &&& #[trigger] parse.ensures((text,), parsed)
                    &&& match parsed {
                        Ok(value) => {
                            &&& result == Ok::<Rx, ChannelError>(value)
                            &&& after.front.data == rest
                            &&& after.front == before.front.consumed(message.len() + 1)
                            &&& after == ChannelView { front: after.front, ..before }
                        },
                        Err(error) => {
                            &&& result == Err::<Rx, ChannelError>(ChannelError::Serde(error))
                            &&& after == before
                        },
                    }
                }
        } else {
            &&& after == before
            &&& result matches Err(ChannelError::InvalidCharSet(error))
            &&& error@ == utf8_error_text(message)
        },
{
    let data = before.front.data;
    let length = message.len();
    assert(message_ends_at(data, length as int)) by {
        assert(data[length as int] == 0);
        assert forall|i: int| 0 <= i < length implies data[i] != 0 by {
            assert(data[i] == message[i]);
        }
    }
    assert(message_read(before, after, length, parse, result));
    assert(data.take(length as int) =~= message);
    assert(data.skip(length as int + 1) =~= rest);
    law_consumed_bytes_are_gone(before.front, length + 1);
    if valid_utf8(message) {
        let (text, parsed) = choose|text: &str, parsed: Result<Rx, serde_json::Error>|
            {
                &&& text.spec_bytes() == message
                &&& #[trigger] parse.ensures((text,), parsed)
                &&& decoded(before, after, length, parsed, result)
            };
        assert(encode_utf8(text@) == message);
        assert(parse.ensures((text,), parsed));
        if parsed is Ok {
            assert(after.front.data =~= rest);
        }
    }
}

/// Law: a decoded message leaves the channel, up to and with its end, and nothing else does; one
/// that could not be decoded stays, and is reported with the decoder's error.
pub proof fn law_only_a_decoded_message_leaves<Rx>(
    before: ChannelView,
    after: ChannelView,
    position: nat,
    parsed: Result<Rx, serde_json::Error>,
    result: Result<Rx, ChannelError>,
)
    requires
        before.wf(),
        position < before.front.data.len(),
        decoded(before, after, position, parsed, result),
    ensures
        match parsed {
            Ok(value) => {
                &&& result == Ok::<Rx, ChannelError>(value)
                &&& before.front.data.take(position as int + 1) + after.front.data
                    == before.front.data
                &&& after.front == before.front.consumed(position + 1)
                &&& after == ChannelView { front: after.front, ..before }
            },
            Err(error) => {
                &&& result == Err::<Rx, ChannelError>(ChannelError::Serde(error))
                &&& after == before
            },
        },
{
    law_consumed_bytes_are_gone(before.front, position + 1);
    if parsed is Ok {
        assert(before.front.data.take(position as int + 1) + after.front.data
            =~= before.front.data);
    }
}

/// Law: a message is accepted exactly where it fits, with its end and behind what waits already, in
/// the back buffer as it is or as large as it may become. It then stands there, with a zero byte
/// behind it, and the buffer has grown to what is needed, if it had to. A channel that blocks goes
/// on to send it, one that does not waits to be ready for that. A message that does not fit is
/// reported with the capacity, and changes neither data nor capacity nor flags. Where there is no
/// space behind the data, the data has moved to the left.
pub proof fn law_message_is_accepted_where_it_fits(channel: ChannelView, message: Seq<u8>)
    requires
        channel.wf(),
    ensures
        ({
            let (after, step) = channel.message_written(message);
            let needed = channel.back.data.len() + message.len() + 1;
            let room = channel.back.capacity - channel.back.gap - channel.back.data.len();
            if needed <= channel.back.capacity || needed <= channel.max_buffer_size {
                &&& after.wf()
                &&& after.back.data == channel.back.data + message + seq![0u8]
                &&& after.back.capacity == if needed > channel.back.capacity {
                    needed
                } else {
                    channel.back.capacity
                }
                &&& after.back == if message.len() < room {
                    channel.back.filled(message).filled(seq![0u8])
                } else {
                    channel.back.shifted().grown(needed).filled(message).filled(seq![0u8])
                }
                &&& step == if channel.blocking {
                    FlushStep::Write
                } else {
                    FlushStep::Done(Ok(()))
                }
                &&& after == ChannelView {
                    back: after.back,
                    interest: if channel.blocking {
                        channel.interest
                    } else {
                        channel.interest.either(Ready::writable())
                    },
                    ..channel
                }
            } else {
                &&& step == FlushStep::Done(
                    Err(ChannelError::MessageTooLarge(channel.back.capacity as usize)),
                )
                &&& after == ChannelView { back: channel.back.shifted(), ..channel }
            }
        }),
{
    if !channel.refuses(message) {
        let room = channel.back_with_room(message.len() + 1);
        assert(room.wf() && room.space() >= message.len() + 1);
        law_appended_bytes_come_last(room, message);
        assert(room.filled(message).space() >= 1);
        law_appended_bytes_come_last(room.filled(message), seq![0u8]);
        let after = channel.message_written(message).0;
        assert(after.back.data =~= channel.back.data + message + seq![0u8]);
    }
}

/// Law: what is written for a message is the very text that the encoder gave, whatever its length,
/// as UTF-8 and with a zero byte behind it; only where the encoder failed is it the zero byte alone.
pub proof fn law_encoded_text_is_written(
    channel: ChannelView,
    encoded: Result<String, serde_json::Error>,
)
    requires
        channel.wf(),
    ensures
        ({
            let (after, step) = channel.message_written(encoded_bytes(encoded));
            let accepted = step !is Done || step->Done_0 is Ok;
            match encoded {
                Ok(text) => {
                    let needed = channel.back.data.len() + encode_utf8(text@).len() + 1;
                    &&& accepted <==> needed <= channel.back.capacity || needed
                        <= channel.max_buffer_size
                    &&& accepted ==> after.back.data == channel.back.data + encode_utf8(text@)
                        + seq![0u8]
                },
                Err(_) => {
                    let needed = channel.back.data.len() + 1;
                    &&& accepted <==> needed <= channel.back.capacity || needed
                        <= channel.max_buffer_size
                    &&& accepted ==> after.back.data == channel.back.data + seq![0u8]
                },
            }
        }),
{
    law_message_is_accepted_where_it_fits(channel, encoded_bytes(encoded));
    if encoded is Err {
        assert(channel.back.data + Seq::<u8>::empty() + seq![0u8] =~= channel.back.data + seq![
            0u8,
        ]);
    }
}

/// Law: a blocking write goes on while data is left, and succeeds as soon as all is gone: bytes that
/// the socket took are gone from the front of what is to be sent, and are no error. A socket that
/// takes no byte, would block, or fails ends it with an error, each its own, and changes nothing.
pub proof fn law_blocking_write_goes_on(channel: ChannelView, taken: usize, error: std::io::Error)
    requires
        channel.wf(),
    ensures
        taken > 0 ==> {
            let (after, step) = channel.flush_sent(Sent::Count(taken));
            &&& taken <= channel.back.data.len() ==> channel.back.data.take(taken as int)
                + after.back.data == channel.back.data
            &&& taken > channel.back.data.len() ==> after.back.data.len() == 0
            &&& after.back == channel.back.consumed(taken as nat)
            &&& after == ChannelView { back: after.back, ..channel }
            &&& step == if taken < channel.back.data.len() {
                FlushStep::Write
            } else {
                FlushStep::Done(Ok(()))
            }
        },
        channel.flush_sent(Sent::Count(0)) == (
            channel,
            FlushStep::Done(Err(ChannelError::NoByteWritten)),
        ),
        channel.flush_sent(Sent::WouldBlock(error)) == (
            channel,
            FlushStep::Done(Err(ChannelError::Read(error))),
        ),
        channel.flush_sent(Sent::Failed(error)) == (
            channel,
            FlushStep::Done(Err(ChannelError::Read(error))),
        ),
{
    law_consumed_bytes_are_gone(channel.back, taken as nat);
    let after = channel.flush_sent(Sent::Count(taken)).0;
    if 0 < taken <= channel.back.data.len() {
        assert(channel.back.data.take(taken as int) + after.back.data =~= channel.back.data);
    }
}

} // verus!
