//! The state of a channel as a mathematical value, and how each operation changes it.

use crate::buffer::BufferView;
use crate::error::ChannelError;
use crate::ready::Ready;
use crate::step::{
    BlockingSwitch, FlushStep, ReadableStep, ReceivedView, RunStep, Sent, WritableStep,
};
use vstd::prelude::*;

verus! {

/// How much a full front buffer grows at a time.
pub const GROWTH: usize = 5000;

/// The bytes of a message as they travel: the message, then a zero byte.
pub open spec fn frame(message: Seq<u8>) -> Seq<u8> {
    message.push(0)
}

/// The first `length` bytes of `data` are a whole message: a zero byte follows them, and
/// there is none before it.
pub open spec fn message_ends_at(data: Seq<u8>, length: int) -> bool {
    &&& 0 <= length < data.len()
    &&& data[length] == 0
    &&& forall|i: int| 0 <= i < length ==> data[i] != 0
}

/// `data` holds no whole message.
pub open spec fn no_message(data: Seq<u8>) -> bool {
    forall|i: int| 0 <= i < data.len() ==> data[i] != 0
}

/// Law: bytes hold a whole message or none, and no more than one is the first.
pub proof fn law_message_or_none(data: Seq<u8>)
    ensures
        no_message(data) <==> !exists|length: int| message_ends_at(data, length),
        forall|m: int, n: int| #[trigger]
            message_ends_at(data, m) && #[trigger] message_ends_at(data, n) ==> m == n,
    decreases data.len(),
{
    if data.len() > 0 {
        if data[0] == 0 {
            assert(message_ends_at(data, 0));
        } else {
            let rest = data.drop_first();
            law_message_or_none(rest);
            if no_message(rest) {
                assert forall|i: int| 0 <= i < data.len() implies data[i] != 0 by {
                    if i > 0 {
                        assert(rest[i - 1] == data[i]);
                    }
                }
            } else {
                let length = choose|length: int| message_ends_at(rest, length);
                assert(data[length + 1] == rest[length]);
                assert forall|i: int| 0 <= i < length + 1 implies data[i] != 0 by {
                    if i > 0 {
                        assert(rest[i - 1] == data[i]);
                    }
                }
                assert(message_ends_at(data, length + 1));
            }
        }
    }
}

/// The state of a channel, without its socket.
#[verifier::ext_equal]
pub struct ChannelView {
    /// What came in and was not read yet.
    pub front: BufferView,
    /// What was written and did not go out yet.
    pub back: BufferView,
    /// How far the buffers may grow.
    pub max_buffer_size: nat,
    /// What the socket is ready for.
    pub readiness: Ready,
    /// What the channel waits for.
    pub interest: Ready,
    pub blocking: bool,
}

impl ChannelView {
    pub open spec fn wf(self) -> bool {
        &&& self.front.wf()
        &&& self.back.wf()
        &&& self.max_buffer_size <= usize::MAX
    }

    /// A fresh nonblocking channel, which waits for input.
    pub open spec fn fresh(buffer_size: nat, max_buffer_size: nat) -> ChannelView {
        ChannelView {
            front: BufferView::empty(buffer_size),
            back: BufferView::empty(buffer_size),
            max_buffer_size,
            readiness: Ready::empty(),
            interest: Ready::readable(),
            blocking: false,
        }
    }

    /// The channel is blocking or not as its socket was switched to, and stays as it was
    /// where the switch failed.
    pub open spec fn switched(self, blocking: bool, switch: BlockingSwitch) -> (
        ChannelView,
        Result<(), ChannelError>,
    ) {
        match switch.outcome {
            Ok(_) => (ChannelView { blocking, ..self }, Ok(())),
            Err(error) => (self, Err(ChannelError::BlockingStatus { fd: switch.fd, error })),
        }
    }

    /// The channel waits for `flags` and its socket has them.
    pub open spec fn ready_for(self, flags: Ready) -> bool {
        self.interest.both(self.readiness).has(flags)
    }

    /// One turn of filling the front buffer: with no space left it stops and no longer
    /// waits for input, else it asks for as much as there is space for.
    pub open spec fn readable_turn(self, count: nat) -> (ChannelView, ReadableStep) {
        if self.front.space() == 0 {
            (
                ChannelView { interest: self.interest.without(Ready::readable()), ..self },
                ReadableStep::Done(Ok(count as usize)),
            )
        } else {
            (self, ReadableStep::Read { count: count as usize, limit: self.front.space() as usize })
        }
    }

    /// Filling the front buffer is refused where the channel is not ready to read.
    pub open spec fn readable_started(self) -> (ChannelView, ReadableStep) {
        if self.ready_for(Ready::readable()) {
            self.readable_turn(0)
        } else {
            (self, ReadableStep::Done(Err(ChannelError::Connection(None))))
        }
    }

    /// What follows once the socket was read from.
    pub open spec fn readable_received(self, count: nat, received: ReceivedView) -> (
        ChannelView,
        ReadableStep,
    ) {
        match received {
            ReceivedView::Bytes(bytes) => if bytes.len() == 0 {
                (
                    ChannelView {
                        interest: Ready::empty(),
                        readiness: self.readiness.without(Ready::readable()).either(Ready::hup()),
                        ..self
                    },
                    ReadableStep::Done(Err(ChannelError::NoByteToRead)),
                )
            } else {
                ChannelView { front: self.front.filled(bytes), ..self }.readable_turn(
                    count + bytes.len(),
                )
            },
            ReceivedView::WouldBlock(_) => (
                ChannelView { readiness: self.readiness.without(Ready::readable()), ..self },
                ReadableStep::Done(Ok(count as usize)),
            ),
            ReceivedView::Failed(error) => (
                ChannelView { interest: Ready::empty(), readiness: Ready::empty(), ..self },
                ReadableStep::Done(Err(ChannelError::Read(error))),
            ),
        }
    }

    /// One turn of emptying the back buffer: with nothing left it stops and no longer
    /// waits to write, else it asks for the data to be written.
    pub open spec fn writable_turn(self, count: nat) -> (ChannelView, WritableStep) {
        if self.back.data.len() == 0 {
            (
                ChannelView { interest: self.interest.without(Ready::writable()), ..self },
                WritableStep::Done(Ok(count as usize)),
            )
        } else {
            (self, WritableStep::Write { count: count as usize })
        }
    }

    /// Emptying the back buffer is refused where the channel is not ready to write.
    pub open spec fn writable_started(self) -> (ChannelView, WritableStep) {
        if self.ready_for(Ready::writable()) {
            self.writable_turn(0)
        } else {
            (self, WritableStep::Done(Err(ChannelError::Connection(None))))
        }
    }

    /// What follows once the socket was written to.
    pub open spec fn writable_sent(self, count: nat, sent: Sent) -> (ChannelView, WritableStep) {
        match sent {
            Sent::Count(taken) => if taken == 0 {
                (
                    ChannelView {
                        interest: Ready::empty(),
                        readiness: self.readiness.either(Ready::hup()),
                        ..self
                    },
                    WritableStep::Done(Err(ChannelError::NoByteWritten)),
                )
            } else {
                ChannelView { back: self.back.consumed(taken as nat), ..self }.writable_turn(
                    (count + taken) as nat,
                )
            },
            Sent::WouldBlock(_) => (
                ChannelView { readiness: self.readiness.without(Ready::writable()), ..self },
                WritableStep::Done(Ok(count as usize)),
            ),
            Sent::Failed(error) => (
                ChannelView { interest: Ready::empty(), readiness: Ready::empty(), ..self },
                WritableStep::Done(Err(ChannelError::Read(error))),
            ),
        }
    }

    /// Running a channel fills the front buffer, then empties the back buffer, each where
    /// the channel is ready for it, and stops at the first error.
    pub open spec fn run_started(self) -> (ChannelView, RunStep) {
        let then_write = self.ready_for(Ready::writable());
        if self.ready_for(Ready::readable()) {
            run_after_reading(self.readable_started(), then_write)
        } else {
            self.run_writing(then_write)
        }
    }

    /// The second half of a run.
    pub open spec fn run_writing(self, then_write: bool) -> (ChannelView, RunStep) {
        if then_write {
            run_after_writing(self.writable_started())
        } else {
            (self, RunStep::Done(Ok(())))
        }
    }

    /// What follows in a run once the socket was read from.
    pub open spec fn run_received(
        self,
        then_write: bool,
        count: nat,
        received: ReceivedView,
    ) -> (ChannelView, RunStep) {
        run_after_reading(self.readable_received(count, received), then_write)
    }

    /// What follows in a run once the socket was written to.
    pub open spec fn run_sent(self, count: nat, sent: Sent) -> (ChannelView, RunStep) {
        run_after_writing(self.writable_sent(count, sent))
    }

    /// The capacity that a full front buffer grows to.
    pub open spec fn next_capacity(self) -> nat {
        if self.front.capacity + GROWTH <= self.max_buffer_size {
            self.front.capacity + GROWTH as nat
        } else {
            self.max_buffer_size
        }
    }

    /// A full front buffer has grown, as far as it may.
    pub open spec fn front_extended(self) -> ChannelView {
        if self.front.space() == 0 {
            ChannelView { front: self.front.grown(self.next_capacity()), ..self }
        } else {
            self
        }
    }

    /// The front buffer is full and must not grow.
    pub open spec fn front_exhausted(self) -> bool {
        self.front.space() == 0 && self.front.capacity == self.max_buffer_size
    }

    /// No message could be read: the channel waits for more input, with space for it.
    pub open spec fn nothing_read(self) -> ChannelView {
        ChannelView { interest: self.interest.either(Ready::readable()), ..self.front_extended() }
    }

    /// What follows, while a message is waited for, once the socket was read from.
    pub open spec fn message_received(self, received: ReceivedView) -> (
        ChannelView,
        Result<(), ChannelError>,
    ) {
        match received {
            ReceivedView::Bytes(bytes) => if bytes.len() == 0 {
                (self, Err(ChannelError::NoByteToRead))
            } else {
                (ChannelView { front: self.front.filled(bytes), ..self }, Ok(()))
            },
            ReceivedView::WouldBlock(error) => (self, Err(ChannelError::Read(error))),
            ReceivedView::Failed(error) => (self, Err(ChannelError::Read(error))),
        }
    }

    /// The first message, of `length` bytes, and its end are gone.
    pub open spec fn message_taken(self, length: nat) -> ChannelView {
        ChannelView { front: self.front.consumed(length + 1), ..self }
    }

    /// A frame of `message` fits in neither the back buffer nor what it may grow to.
    pub open spec fn refuses(self, message: Seq<u8>) -> bool {
        let needed = self.back.data.len() + message.len() + 1;
        needed > self.back.capacity && needed > self.max_buffer_size
    }

    /// The back buffer makes room for `size` more bytes: it moves its data to the left if
    /// there is no space for them, and grows to exactly what is needed if that does not do.
    pub open spec fn back_with_room(self, size: nat) -> BufferView {
        if size <= self.back.space() {
            self.back
        } else {
            self.back.shifted().grown(self.back.data.len() + size)
        }
    }

    /// `message` waits in the back buffer, with its end.
    pub open spec fn framed(self, message: Seq<u8>) -> ChannelView {
        ChannelView {
            back: self.back_with_room(message.len() + 1).filled(message).filled(seq![0u8]),
            ..self
        }
    }

    /// `message` was refused. The data has moved to the left to look for room.
    pub open spec fn refused(self) -> ChannelView {
        ChannelView { back: self.back.shifted(), ..self }
    }

    /// One turn of emptying the back buffer of a blocking channel.
    pub open spec fn flush_turn(self) -> FlushStep {
        if self.back.data.len() == 0 {
            FlushStep::Done(Ok(()))
        } else {
            FlushStep::Write
        }
    }

    /// What follows, on a blocking channel, once the socket was written to. The
    /// flush ends well only where nothing is left; a socket that takes no more ends it with
    /// an error.
    pub open spec fn flush_sent(self, sent: Sent) -> (ChannelView, FlushStep) {
        match sent {
            Sent::Count(taken) => if taken == 0 {
                (self, FlushStep::Done(Err(ChannelError::NoByteWritten)))
            } else {
                let after = ChannelView { back: self.back.consumed(taken as nat), ..self };
                (after, after.flush_turn())
            },
            Sent::WouldBlock(error) => (self, FlushStep::Done(Err(ChannelError::Read(error)))),
            Sent::Failed(error) => (self, FlushStep::Done(Err(ChannelError::Read(error)))),
        }
    }

    /// Writing a message: a nonblocking channel only keeps it and waits to write, a
    /// blocking one starts to send.
    pub open spec fn message_written(self, message: Seq<u8>) -> (ChannelView, FlushStep) {
        if self.refuses(message) {
            (
                self.refused(),
                FlushStep::Done(Err(ChannelError::MessageTooLarge(self.back.capacity as usize))),
            )
        } else if self.blocking {
            (self.framed(message), FlushStep::Write)
        } else {
            (
                ChannelView {
                    interest: self.interest.either(Ready::writable()),
                    ..self.framed(message)
                },
                FlushStep::Done(Ok(())),
            )
        }
    }
}

/// A run goes on to write once the front buffer was filled without an error.
pub open spec fn run_after_reading(reading: (ChannelView, ReadableStep), then_write: bool) -> (
    ChannelView,
    RunStep,
) {
    match reading.1 {
        ReadableStep::Read { count, limit } => (
            reading.0,
            RunStep::Read { count, limit, then_write },
        ),
        ReadableStep::Done(Ok(_)) => reading.0.run_writing(then_write),
        ReadableStep::Done(Err(error)) => (reading.0, RunStep::Done(Err(error))),
    }
}

/// A run is over once the back buffer was emptied, or failed to be.
pub open spec fn run_after_writing(writing: (ChannelView, WritableStep)) -> (ChannelView, RunStep) {
    match writing.1 {
        WritableStep::Write { count } => (writing.0, RunStep::Write { count }),
        WritableStep::Done(Ok(_)) => (writing.0, RunStep::Done(Ok(()))),
        WritableStep::Done(Err(error)) => (writing.0, RunStep::Done(Err(error))),
    }
}

} // verus!
