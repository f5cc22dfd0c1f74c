//! Channels that exchange messages over a unix socket.
//!
//! A message travels as text, followed by a zero byte. How a message becomes text and
//! back is up to the encoder and the decoder that the caller hands in.

use crate::buffer::Buffer;
use crate::error::ChannelError;
use crate::model::{
    law_message_or_none, message_ends_at, no_message, run_after_reading, ChannelView, GROWTH,
};
use crate::outcomes::law_message_is_accepted_where_it_fits;
use crate::ready::Ready;
use crate::step::{
    BlockingSwitch, FlushStep, MessageStep, ReadableStep, Received, RunStep, Sent, WritableStep,
};
use core::marker::PhantomData;
use mio::net::UnixStream;
use vstd::prelude::*;
use vstd::string::StringSliceAdditionalSpecFns;
use vstd::utf8::{encode_utf8, valid_utf8};

verus! {

broadcast use crate::buffer::Buffer::lemma_view_wf;

/// `mio::net::UnixStream`, which a channel holds for its caller and never touches itself.
#[verifier::external_type_specification]
#[verifier::external_body]
pub struct ExUnixStream(mio::net::UnixStream);

/// What `core::str::Utf8Error` displays for bytes that are not valid UTF-8.
pub uninterp spec fn utf8_error_text(bytes: Seq<u8>) -> Seq<char>;

/// Calls `core::str::from_utf8`. Trusted: it succeeds on exactly the valid UTF-8
/// encodings, and the text that it gives has the very bytes that it was given. The text
/// that its error displays depends on the bytes alone.
#[verifier::external_body]
fn text_of(bytes: &[u8]) -> (text: Result<&str, String>)
    ensures
        match text {
            Ok(text) => valid_utf8(bytes@) && text.spec_bytes() == bytes@,
            Err(error) => !valid_utf8(bytes@) && error@ == utf8_error_text(bytes@),
        },
{
    match core::str::from_utf8(bytes) {
        Ok(text) => Ok(text),
        Err(error) => Err(error.to_string()),
    }
}

/// The position of the first zero byte of `data`.
fn find_end(data: &[u8]) -> (length: Option<usize>)
    ensures
        match length {
            Some(length) => message_ends_at(data@, length as int),
            None => no_message(data@),
        },
{
    let mut i: usize = 0;
    while i < data.len()
        invariant
            i <= data@.len(),
            forall|k: int| 0 <= k < i ==> data@[k] != 0,
        decreases data@.len() - i,
    {
        if data[i] == 0 {
            return Some(i);
        }
        i += 1;
    }
    None
}

/// The outcome of decoding the first message, of `length` bytes, of a channel: the
/// message leaves the channel only where it could be decoded.
pub open spec fn decoded<Rx>(
    before: ChannelView,
    after: ChannelView,
    length: nat,
    parsed: Result<Rx, serde_json::Error>,
    result: Result<Rx, ChannelError>,
) -> bool {
    match parsed {
        Ok(message) => result == Ok::<Rx, ChannelError>(message) && after
            == before.message_taken(length),
        Err(error) => result == Err::<Rx, ChannelError>(ChannelError::Serde(error)) && after
            == before,
    }
}

/// The outcome of reading the first message, of `length` bytes, of a channel: its text is
/// handed to `parse`, unless the bytes are not valid UTF-8.
pub open spec fn message_read<Rx, F: FnOnce(&str) -> Result<Rx, serde_json::Error>>(
    before: ChannelView,
    after: ChannelView,
    length: nat,
    parse: F,
    result: Result<Rx, ChannelError>,
) -> bool {
    let bytes = before.front.data.take(length as int);
    if valid_utf8(bytes) {
        exists|text: &str, parsed: Result<Rx, serde_json::Error>|
            {
                &&& text.spec_bytes() == bytes
                &&& #[trigger] parse.ensures((text,), parsed)
                &&& decoded(before, after, length, parsed, result)
            }
    } else {
        &&& after == before
        &&& result matches Err(ChannelError::InvalidCharSet(error))
        &&& error@ == utf8_error_text(bytes)
    }
}

/// The outcome of reading a message without waiting.
pub open spec fn nonblocking_read<Rx, F: FnOnce(&str) -> Result<Rx, serde_json::Error>>(
    before: ChannelView,
    after: ChannelView,
    parse: F,
    result: Result<Rx, ChannelError>,
) -> bool {
    &&& forall|length: int| #[trigger]
        message_ends_at(before.front.data, length) ==> message_read(
            before,
            after,
            length as nat,
            parse,
            result,
        )
    &&& no_message(before.front.data) ==> {
        &&& after == before.nothing_read()
        &&& result == Err::<Rx, ChannelError>(ChannelError::NothingRead)
    }
}

/// The outcome of one turn of waiting for a message. A timeout comes before everything
/// else, even before a message that is there.
pub open spec fn blocking_read<Rx, F: FnOnce(&str) -> Result<Rx, serde_json::Error>>(
    before: ChannelView,
    after: ChannelView,
    timeout: Option<u128>,
    elapsed: u128,
    parse: F,
    step: MessageStep<Rx>,
) -> bool {
    if timeout is Some && elapsed >= timeout->0 {
        &&& after == before
        &&& step == MessageStep::<Rx>::Done(Err(ChannelError::TimeoutReached(timeout->0)))
    } else {
        &&& forall|length: int| #[trigger]
            message_ends_at(before.front.data, length) ==> {
                &&& step matches MessageStep::Done(result)
                &&& message_read(before, after, length as nat, parse, result)
            }
        &&& no_message(before.front.data) ==> if before.front_exhausted() {
            &&& after == before
            &&& step == MessageStep::<Rx>::Done(Err(ChannelError::BufferFull))
        } else {
            &&& after == before.front_extended()
            &&& step == MessageStep::<Rx>::Read { limit: after.front.space() as usize }
        }
    }
}

/// The bytes that are written for an encoded message; none where it was not encoded.
pub open spec fn encoded_bytes(encoded: Result<String, serde_json::Error>) -> Seq<u8> {
    match encoded {
        Ok(text) => encode_utf8(text@),
        Err(_) => seq![],
    }
}

/// A channel that sends messages of type `Tx` and receives messages of type `Rx`.
pub struct Channel<Tx, Rx> {
    pub sock: UnixStream,
    front_buf: Buffer,
    pub back_buf: Buffer,
    max_buffer_size: usize,
    pub readiness: Ready,
    pub interest: Ready,
    blocking: bool,
    phantom_tx: PhantomData<Tx>,
    phantom_rx: PhantomData<Rx>,
}

impl<Tx, Rx> View for Channel<Tx, Rx> {
    type V = ChannelView;

    closed spec fn view(&self) -> ChannelView {
        ChannelView {
            front: self.front_buf@,
            back: self.back_buf@,
            max_buffer_size: self.max_buffer_size as nat,
            readiness: self.readiness,
            interest: self.interest,
            blocking: self.blocking,
        }
    }
}

impl<Tx, Rx> Channel<Tx, Rx> {
    /// Both buffers are well-formed.
    pub closed spec fn wf(&self) -> bool {
        self.front_buf.wf() && self.back_buf.wf()
    }

    /// The socket that the channel holds.
    pub closed spec fn socket(&self) -> UnixStream {
        self.sock
    }

    /// A well-formed channel has a well-formed view.
    pub broadcast proof fn lemma_view_wf(&self)
        ensures
            #[trigger] self.wf() ==> self@.wf(),
    {
    }

    /// Creates a nonblocking channel, using a unix stream.
    pub fn new(
        sock: UnixStream,
        buffer_size: usize,
        max_buffer_size: usize,
    ) -> (channel: Channel<Tx, Rx>)
        ensures
            channel.wf(),
            channel.socket() == sock,
            channel@ == ChannelView::fresh(buffer_size as nat, max_buffer_size as nat),
    {
        Channel {
            sock,
            front_buf: Buffer::with_capacity(buffer_size),
            back_buf: Buffer::with_capacity(buffer_size),
            max_buffer_size,
            readiness: Ready::empty(),
            interest: Ready::readable(),
            blocking: false,
            phantom_tx: PhantomData,
            phantom_rx: PhantomData,
        }
    }

    /// Creates a nonblocking channel on the socket that connecting to a path gave.
    pub fn from_path(
        connected: Result<UnixStream, std::io::Error>,
        buffer_size: usize,
        max_buffer_size: usize,
    ) -> (result: Result<Channel<Tx, Rx>, ChannelError>)
        ensures
            match connected {
                Ok(sock) => {
                    &&& result matches Ok(channel)
                    &&& channel.wf()
                    &&& channel.socket() == sock
                    &&& channel@ == ChannelView::fresh(buffer_size as nat, max_buffer_size as nat)
                },
                Err(error) => result == Err::<Channel<Tx, Rx>, ChannelError>(
                    ChannelError::Connection(Some(error)),
                ),
            },
    {
        match connected {
            Ok(sock) => Ok(Channel::new(sock, buffer_size, max_buffer_size)),
            Err(error) => Err(ChannelError::Connection(Some(error))),
        }
    }

    /// Turns the channel into one for other types of messages. All else stays.
    pub fn into<Tx2, Rx2>(self) -> (channel: Channel<Tx2, Rx2>)
        ensures
            channel.wf() == self.wf(),
            channel.socket() == self.socket(),
            channel@ == self@,
    {
        Channel {
            sock: self.sock,
            front_buf: self.front_buf,
            back_buf: self.back_buf,
            max_buffer_size: self.max_buffer_size,
            readiness: self.readiness,
            interest: self.interest,
            blocking: self.blocking,
            phantom_tx: PhantomData,
            phantom_rx: PhantomData,
        }
    }

    /// Follows the socket, which was switched to nonblocking or back.
    fn set_nonblocking(
        &mut self,
        nonblocking: bool,
        switch: BlockingSwitch,
    ) -> (result: Result<(), ChannelError>)
        requires
            old(self).wf(),
        ensures
            final(self).wf(),
            final(self).socket() == old(self).socket(),
            (final(self)@, result) == old(self)@.switched(!nonblocking, switch),
    {
        match switch.outcome {
            Ok(()) => {
                self.blocking = !nonblocking;
                Ok(())
            },
            Err(error) => Err(ChannelError::BlockingStatus { fd: switch.fd, error }),
        }
    }

    /// Sets the channel to be blocking, where the socket could be switched.
    pub fn blocking(&mut self, switch: BlockingSwitch) -> (result: Result<(), ChannelError>)
        requires
            old(self).wf(),
        ensures
            final(self).wf(),
            final(self).socket() == old(self).socket(),
            (final(self)@, result) == old(self)@.switched(true, switch),
    {
        self.set_nonblocking(false, switch)
    }

    /// Sets the channel to be nonblocking, where the socket could be switched.
    pub fn nonblocking(&mut self, switch: BlockingSwitch) -> (result: Result<(), ChannelError>)
        requires
            old(self).wf(),
        ensures
            final(self).wf(),
            final(self).socket() == old(self).socket(),
            (final(self)@, result) == old(self)@.switched(false, switch),
    {
        self.set_nonblocking(true, switch)
    }

    pub fn is_blocking(&self) -> (blocking: bool)
        ensures
            blocking == self@.blocking,
    {
        self.blocking
    }

    /// Adds what the socket has become ready for.
    pub fn handle_events(&mut self, events: Ready)
        requires
            old(self).wf(),
        ensures
            final(self).wf(),
            final(self).socket() == old(self).socket(),
            final(self)@ == (ChannelView {
                readiness: old(self)@.readiness.either(events),
                ..old(self)@
            }),
    {
        self.readiness = self.readiness | events;
    }

    /// What the channel waits for and its socket is ready for.
    pub fn readiness(&self) -> (flags: Ready)
        ensures
            flags == self@.readiness.both(self@.interest),
    {
        self.readiness & self.interest
    }

    /// Creates a channel pair, `(blocking_channel, nonblocking_channel)`, on a pair of
    /// sockets, the first of which was switched to blocking.
    pub fn generate(
        pair: Result<(UnixStream, UnixStream, BlockingSwitch), std::io::Error>,
        buffer_size: usize,
        max_buffer_size: usize,
    ) -> (result: Result<(Channel<Tx, Rx>, Channel<Rx, Tx>), ChannelError>)
        ensures
            ({
                let fresh = ChannelView::fresh(buffer_size as nat, max_buffer_size as nat);
                match pair {
                    Ok((command, proxy, switch)) => match fresh.switched(true, switch) {
                        (view, Ok(())) => {
                            &&& result matches Ok((command_channel, proxy_channel))
                            &&& command_channel.wf() && proxy_channel.wf()
                            &&& command_channel.socket() == command
                            &&& proxy_channel.socket() == proxy
                            &&& command_channel@ == view
                            &&& proxy_channel@ == fresh
                        },
                        (_, Err(error)) => result == Err::<
                            (Channel<Tx, Rx>, Channel<Rx, Tx>),
                            ChannelError,
                        >(error),
                    },
                    Err(error) => result == Err::<(Channel<Tx, Rx>, Channel<Rx, Tx>), ChannelError>(
                        ChannelError::Read(error),
                    ),
                }
            }),
    {
        match pair {
            Ok((command, proxy, switch)) => {
                let proxy_channel: Channel<Rx, Tx> = Channel::new(proxy, buffer_size, max_buffer_size);
                let mut command_channel: Channel<Tx, Rx> = Channel::new(
                    command,
                    buffer_size,
                    max_buffer_size,
                );
                match command_channel.blocking(switch) {
                    Ok(()) => Ok((command_channel, proxy_channel)),
                    Err(error) => Err(error),
                }
            },
            Err(error) => Err(ChannelError::Read(error)),
        }
    }

    /// Creates a pair of nonblocking channels on a pair of sockets.
    pub fn generate_nonblocking(
        pair: Result<(UnixStream, UnixStream), std::io::Error>,
        buffer_size: usize,
        max_buffer_size: usize,
    ) -> (result: Result<(Channel<Tx, Rx>, Channel<Rx, Tx>), ChannelError>)
        ensures
            ({
                let fresh = ChannelView::fresh(buffer_size as nat, max_buffer_size as nat);
                match pair {
                    Ok((command, proxy)) => {
                        &&& result matches Ok((command_channel, proxy_channel))
                        &&& command_channel.wf() && proxy_channel.wf()
                        &&& command_channel.socket() == command
                        &&& proxy_channel.socket() == proxy
                        &&& command_channel@ == fresh
                        &&& proxy_channel@ == fresh
                    },
                    Err(error) => result == Err::<(Channel<Tx, Rx>, Channel<Rx, Tx>), ChannelError>(
                        ChannelError::Read(error),
                    ),
                }
            }),
    {
        match pair {
            Ok((command, proxy)) => {
                let proxy_channel: Channel<Rx, Tx> = Channel::new(proxy, buffer_size, max_buffer_size);
                let command_channel: Channel<Tx, Rx> = Channel::new(
                    command,
                    buffer_size,
                    max_buffer_size,
                );
                Ok((command_channel, proxy_channel))
            },
            Err(error) => Err(ChannelError::Read(error)),
        }
    }

    /// Fills the front buffer: what comes first.
    pub fn readable(&mut self) -> (step: ReadableStep)
        requires
            old(self).wf(),
        ensures
            final(self).wf(),
            final(self).socket() == old(self).socket(),
            (final(self)@, step) == old(self)@.readable_started(),
    {
        if !(self.interest & self.readiness).is_readable() {
            return ReadableStep::Done(Err(ChannelError::Connection(None)));
        }
        self.readable_turn(0)
    }

    fn readable_turn(&mut self, count: usize) -> (step: ReadableStep)
        requires
            old(self).wf(),
        ensures
            final(self).wf(),
            final(self).socket() == old(self).socket(),
            (final(self)@, step) == old(self)@.readable_turn(count as nat),
    {
        let limit: usize = self.front_buf.available_space();
        if limit == 0 {
            self.interest.remove(Ready::readable());
            return ReadableStep::Done(Ok(count));
        }
        ReadableStep::Read { count, limit }
    }

    /// Fills the front buffer with what the socket answered, after `count` bytes before.
    pub fn readable_received(&mut self, count: usize, received: Received) -> (step: ReadableStep)
        requires
            old(self).wf(),
            count <= old(self)@.front.data.len(),
            received@.within(old(self)@.front.space()),
        ensures
            final(self).wf(),
            final(self).socket() == old(self).socket(),
            (final(self)@, step) == old(self)@.readable_received(count as nat, received@),
            final(self)@.front.data == match received {
                Received::Bytes(bytes) => old(self)@.front.data + bytes@,
                _ => old(self)@.front.data,
            },
            match received {
                Received::Bytes(bytes) => step is Done && step->Done_0 is Err <==> bytes@.len() == 0,
                Received::WouldBlock(_) => step == ReadableStep::Done(Ok(count)),
                Received::Failed(error) => step == ReadableStep::Done(
                    Err(ChannelError::Read(error)),
                ),
            },
    {
        match received {
            Received::Bytes(bytes) => {
                if bytes.len() == 0 {
                    self.interest = Ready::empty();
                    self.readiness.remove(Ready::readable());
                    self.readiness.insert(Ready::hup());
                    return ReadableStep::Done(Err(ChannelError::NoByteToRead));
                }
                self.front_buf.write(bytes.as_slice());
                assert(bytes@.take(bytes@.len() as int) =~= bytes@);
                self.readable_turn(count + bytes.len())
            },
            Received::WouldBlock(_) => {
                self.readiness.remove(Ready::readable());
                ReadableStep::Done(Ok(count))
            },
            Received::Failed(error) => {
                self.interest = Ready::empty();
                self.readiness = Ready::empty();
                ReadableStep::Done(Err(ChannelError::Read(error)))
            },
        }
    }

    /// The bytes that a step asks to be written to the socket.
    pub fn pending(&self) -> (data: &[u8])
        requires
            self.wf(),
        ensures
            data@ == self@.back.data,
    {
        self.back_buf.data()
    }

    /// Empties the back buffer: what comes first.
    pub fn writable(&mut self) -> (step: WritableStep)
        requires
            old(self).wf(),
        ensures
            final(self).wf(),
            final(self).socket() == old(self).socket(),
            (final(self)@, step) == old(self)@.writable_started(),
    {
        if !(self.interest & self.readiness).is_writable() {
            return WritableStep::Done(Err(ChannelError::Connection(None)));
        }
        self.writable_turn(0)
    }

    fn writable_turn(&mut self, count: usize) -> (step: WritableStep)
        requires
            old(self).wf(),
        ensures
            final(self).wf(),
            final(self).socket() == old(self).socket(),
            (final(self)@, step) == old(self)@.writable_turn(count as nat),
    {
        if self.back_buf.available_data() == 0 {
            self.interest.remove(Ready::writable());
            return WritableStep::Done(Ok(count));
        }
        WritableStep::Write { count }
    }

    /// Drops what the socket took from the back buffer, after `count` bytes before.
    pub fn writable_sent(&mut self, count: usize, sent: Sent) -> (step: WritableStep)
        requires
            old(self).wf(),
            count + old(self)@.back.data.len() <= usize::MAX,
            sent.within(old(self)@.back.data.len() as int),
        ensures
            final(self).wf(),
            final(self).socket() == old(self).socket(),
            (final(self)@, step) == old(self)@.writable_sent(count as nat, sent),
    {
        match sent {
            Sent::Count(taken) => {
                if taken == 0 {
                    self.interest = Ready::empty();
                    self.readiness.insert(Ready::hup());
                    return WritableStep::Done(Err(ChannelError::NoByteWritten));
                }
                self.back_buf.consume(taken);
                self.writable_turn(count + taken)
            },
            Sent::WouldBlock(_) => {
                self.readiness.remove(Ready::writable());
                WritableStep::Done(Ok(count))
            },
            Sent::Failed(error) => {
                self.interest = Ready::empty();
                self.readiness = Ready::empty();
                WritableStep::Done(Err(ChannelError::Read(error)))
            },
        }
    }

    /// Checks whether the channel wants and can read or write, and does so: what comes
    /// first.
    pub fn run(&mut self) -> (step: RunStep)
        requires
            old(self).wf(),
        ensures
            final(self).wf(),
            final(self).socket() == old(self).socket(),
            (final(self)@, step) == old(self)@.run_started(),
    {
        let interest: Ready = self.interest & self.readiness;
        let then_write: bool = interest.is_writable();
        if interest.is_readable() {
            let step: ReadableStep = self.readable();
            self.run_after_reading(step, then_write)
        } else {
            self.run_writing(then_write)
        }
    }

    /// Goes on with a run, with what the socket answered to the reading.
    pub fn run_received(
        &mut self,
        then_write: bool,
        count: usize,
        received: Received,
    ) -> (step: RunStep)
        requires
            old(self).wf(),
            count <= old(self)@.front.data.len(),
            received@.within(old(self)@.front.space()),
        ensures
            final(self).wf(),
            final(self).socket() == old(self).socket(),
            (final(self)@, step) == old(self)@.run_received(then_write, count as nat, received@),
            final(self)@.front.data == match received {
                Received::Bytes(bytes) => old(self)@.front.data + bytes@,
                _ => old(self)@.front.data,
            },
            received matches Received::Failed(error) ==> step == RunStep::Done(
                Err(ChannelError::Read(error)),
            ),
            received is WouldBlock && !then_write ==> step == RunStep::Done(Ok(())),
    {
        let step: ReadableStep = self.readable_received(count, received);
        self.run_after_reading(step, then_write)
    }

    /// Goes on with a run, with what the socket answered to the writing.
    pub fn run_sent(&mut self, count: usize, sent: Sent) -> (step: RunStep)
        requires
            old(self).wf(),
            count + old(self)@.back.data.len() <= usize::MAX,
            sent.within(old(self)@.back.data.len() as int),
        ensures
            final(self).wf(),
            final(self).socket() == old(self).socket(),
            (final(self)@, step) == old(self)@.run_sent(count as nat, sent),
    {
        match self.writable_sent(count, sent) {
            WritableStep::Write { count } => RunStep::Write { count },
            WritableStep::Done(Ok(_)) => RunStep::Done(Ok(())),
            WritableStep::Done(Err(error)) => RunStep::Done(Err(error)),
        }
    }

    fn run_after_reading(&mut self, step: ReadableStep, then_write: bool) -> (next: RunStep)
        requires
            old(self).wf(),
        ensures
            final(self).wf(),
            final(self).socket() == old(self).socket(),
            (final(self)@, next) == run_after_reading((old(self)@, step), then_write),
    {
        match step {
            ReadableStep::Read { count, limit } => RunStep::Read { count, limit, then_write },
            ReadableStep::Done(Ok(_)) => self.run_writing(then_write),
            ReadableStep::Done(Err(error)) => RunStep::Done(Err(error)),
        }
    }

    fn run_writing(&mut self, then_write: bool) -> (step: RunStep)
        requires
            old(self).wf(),
        ensures
            final(self).wf(),
            final(self).socket() == old(self).socket(),
            (final(self)@, step) == old(self)@.run_writing(then_write),
    {
        if !then_write {
            return RunStep::Done(Ok(()));
        }
        match self.writable() {
            WritableStep::Write { count } => RunStep::Write { count },
            WritableStep::Done(Ok(_)) => RunStep::Done(Ok(())),
            WritableStep::Done(Err(error)) => RunStep::Done(Err(error)),
        }
    }

    /// Reads a message, depending on the blocking status:
    ///
    /// Blocking: waits for the front buffer to be filled, and decodes a message from it.
    ///
    /// Nonblocking: decodes a message from the front buffer, without waiting.
    pub fn read_message<F: FnOnce(&str) -> Result<Rx, serde_json::Error>>(
        &mut self,
        parse: F,
    ) -> (step: MessageStep<Rx>)
        requires
            old(self).wf(),
            forall|text: &str| parse.requires((text,)),
        ensures
            final(self).wf(),
            final(self).socket() == old(self).socket(),
            if old(self)@.blocking {
                blocking_read(old(self)@, final(self)@, None, 0, parse, step)
            } else {
                &&& step matches MessageStep::Done(result)
                &&& nonblocking_read(old(self)@, final(self)@, parse, result)
            },
    {
        if self.blocking {
            self.read_message_blocking(parse)
        } else {
            MessageStep::Done(self.read_message_nonblocking(parse))
        }
    }

    /// Decodes a message from the front buffer, without waiting.
    fn read_message_nonblocking<F: FnOnce(&str) -> Result<Rx, serde_json::Error>>(
        &mut self,
        parse: F,
    ) -> (result: Result<Rx, ChannelError>)
        requires
            old(self).wf(),
            forall|text: &str| parse.requires((text,)),
        ensures
            final(self).wf(),
            final(self).socket() == old(self).socket(),
            nonblocking_read(old(self)@, final(self)@, parse, result),
    {
        match find_end(self.front_buf.data()) {
            Some(position) => {
                proof {
                    law_message_or_none(self@.front.data);
                }
                self.read_and_parse_from_front_buffer(position, parse)
            },
            None => {
                self.extend_front();
                self.interest.insert(Ready::readable());
                Err(ChannelError::NothingRead)
            },
        }
    }

    /// Makes a full front buffer grow, as far as it may.
    fn extend_front(&mut self)
        requires
            old(self).wf(),
        ensures
            final(self).wf(),
            final(self).socket() == old(self).socket(),
            final(self)@ == old(self)@.front_extended(),
    {
        if self.front_buf.available_space() == 0 {
            let capacity: usize = self.front_buf.capacity();
            let new_size: usize = if capacity <= self.max_buffer_size
                && GROWTH <= self.max_buffer_size - capacity {
                capacity + GROWTH
            } else {
                self.max_buffer_size
            };
            self.front_buf.grow(new_size);
        }
    }

    fn read_message_blocking<F: FnOnce(&str) -> Result<Rx, serde_json::Error>>(
        &mut self,
        parse: F,
    ) -> (step: MessageStep<Rx>)
        requires
            old(self).wf(),
            forall|text: &str| parse.requires((text,)),
        ensures
            final(self).wf(),
            final(self).socket() == old(self).socket(),
            blocking_read(old(self)@, final(self)@, None, 0, parse, step),
    {
        self.read_message_blocking_timeout(None, 0, parse)
    }

    /// Waits for the front buffer to be filled, and decodes a message from it. `timeout`
    /// is how long to wait at most and `elapsed` how long was waited, in nanoseconds.
    pub fn read_message_blocking_timeout<F: FnOnce(&str) -> Result<Rx, serde_json::Error>>(
        &mut self,
        timeout: Option<u128>,
        elapsed: u128,
        parse: F,
    ) -> (step: MessageStep<Rx>)
        requires
            old(self).wf(),
            forall|text: &str| parse.requires((text,)),
        ensures
            final(self).wf(),
            final(self).socket() == old(self).socket(),
            blocking_read(old(self)@, final(self)@, timeout, elapsed, parse, step),
    {
        if let Some(timeout) = timeout {
            if elapsed >= timeout {
                return MessageStep::Done(Err(ChannelError::TimeoutReached(timeout)));
            }
        }
        match find_end(self.front_buf.data()) {
            Some(position) => {
                proof {
                    law_message_or_none(self@.front.data);
                }
                MessageStep::Done(self.read_and_parse_from_front_buffer(position, parse))
            },
            None => {
                if self.front_buf.available_space() == 0
                    && self.front_buf.capacity() == self.max_buffer_size {
                    return MessageStep::Done(Err(ChannelError::BufferFull));
                }
                self.extend_front();
                MessageStep::Read { limit: self.front_buf.available_space() }
            },
        }
    }

    /// Fills the front buffer with what the socket answered, while a message is waited
    /// for.
    pub fn message_received(&mut self, received: Received) -> (result: Result<(), ChannelError>)
        requires
            old(self).wf(),
            received@.within(old(self)@.front.space()),
        ensures
            final(self).wf(),
            final(self).socket() == old(self).socket(),
            (final(self)@, result) == old(self)@.message_received(received@),
            final(self)@.front.data == match received {
                Received::Bytes(bytes) => old(self)@.front.data + bytes@,
                _ => old(self)@.front.data,
            },
            match received {
                Received::Bytes(bytes) => result is Ok <==> bytes@.len() > 0,
                Received::WouldBlock(error) => result == Err::<(), ChannelError>(
                    ChannelError::Read(error),
                ),
                Received::Failed(error) => result == Err::<(), ChannelError>(
                    ChannelError::Read(error),
                ),
            },
    {
        match received {
            Received::Bytes(bytes) => {
                if bytes.len() == 0 {
                    return Err(ChannelError::NoByteToRead);
                }
                self.front_buf.write(bytes.as_slice());
                assert(bytes@.take(bytes@.len() as int) =~= bytes@);
                Ok(())
            },
            Received::WouldBlock(error) => Err(ChannelError::Read(error)),
            Received::Failed(error) => Err(ChannelError::Read(error)),
        }
    }

    /// Decodes the message that ends at `position`, and drops it where that worked.
    fn read_and_parse_from_front_buffer<F: FnOnce(&str) -> Result<Rx, serde_json::Error>>(
        &mut self,
        position: usize,
        parse: F,
    ) -> (result: Result<Rx, ChannelError>)
        requires
            old(self).wf(),
            position < old(self)@.front.data.len(),
            forall|text: &str| parse.requires((text,)),
        ensures
            final(self).wf(),
            final(self).socket() == old(self).socket(),
            message_read(old(self)@, final(self)@, position as nat, parse, result),
    {
        let text: &str = match text_of(self.front_buf.data().split_at(position).0) {
            Ok(text) => text,
            Err(error) => {
                return Err(ChannelError::InvalidCharSet(error));
            },
        };
        let parsed: Result<Rx, serde_json::Error> = parse(text);
        self.accept_message(position, parsed)
    }

    /// Takes what decoding the message that ends at `position` gave: a message that could
    /// be decoded leaves the front buffer.
    pub fn accept_message(
        &mut self,
        position: usize,
        parsed: Result<Rx,
        serde_json::Error>,
    ) -> (result: Result<Rx, ChannelError>)
        requires
            old(self).wf(),
            position < old(self)@.front.data.len(),
        ensures
            final(self).wf(),
            final(self).socket() == old(self).socket(),
            decoded(old(self)@, final(self)@, position as nat, parsed, result),
    {
        match parsed {
            Ok(message) => {
                self.front_buf.consume(position + 1);
                Ok(message)
            },
            Err(error) => Err(ChannelError::Serde(error)),
        }
    }

    /// Writes a message, depending on the blocking status:
    ///
    /// Blocking: fills the back buffer with the message and starts to write it to the
    /// socket.
    ///
    /// Nonblocking: fills the back buffer with the message, but leaves the socket alone;
    /// flush with [`Channel::run`] afterwards.
    pub fn write_message<F: FnOnce(&Tx) -> Result<String, serde_json::Error>>(
        &mut self,
        message: &Tx,
        encode: F,
    ) -> (step: FlushStep)
        requires
            old(self).wf(),
            encode.requires((message,)),
        ensures
            final(self).wf(),
            final(self).socket() == old(self).socket(),
            exists|encoded: Result<String, serde_json::Error>|
                {
                    &&& #[trigger] encode.ensures((message,), encoded)
                    &&& (final(self)@, step) == old(self)@.message_written(encoded_bytes(encoded))
                    &&& encoded matches Ok(text) ==> {
                        let bytes = encode_utf8(text@);
                        let needed = old(self)@.back.data.len() + bytes.len() + 1;
                        if needed <= old(self)@.back.capacity || needed
                            <= old(self)@.max_buffer_size {
                            &&& final(self)@.back.data == old(self)@.back.data + bytes + seq![0u8]
                            &&& step !is Done || step->Done_0 is Ok
                        } else {
                            &&& final(self)@.back.data == old(self)@.back.data
                            &&& step is Done && step->Done_0 is Err
                        }
                    }
                },
    {
        let encoded: Result<String, serde_json::Error> = encode(message);
        self.write_encoded(encoded)
    }

    /// Writes what encoding a message gave. A message that could not be encoded is
    /// written as the empty message.
    pub fn write_encoded(
        &mut self,
        encoded: Result<String,
        serde_json::Error>,
    ) -> (step: FlushStep)
        requires
            old(self).wf(),
        ensures
            final(self).wf(),
            final(self).socket() == old(self).socket(),
            (final(self)@, step) == old(self)@.message_written(encoded_bytes(encoded)),
            ({
                let bytes = match encoded {
                    Ok(text) => encode_utf8(text@),
                    Err(_) => seq![],
                };
                let needed = old(self)@.back.data.len() + bytes.len() + 1;
                if needed <= old(self)@.back.capacity || needed <= old(self)@.max_buffer_size {
                    &&& final(self)@.back.data == old(self)@.back.data + bytes + seq![0u8]
                    &&& step !is Done || step->Done_0 is Ok
                } else {
                    &&& final(self)@.back.data == old(self)@.back.data
                    &&& step is Done && step->Done_0 is Err
                }
            }),
    {
        proof {
            law_message_is_accepted_where_it_fits(self@, encoded_bytes(encoded));
        }
        let text: String = match encoded {
            Ok(text) => text,
            Err(_) => String::new(),
        };
        if self.blocking {
            self.write_message_blocking(text.as_str())
        } else {
            FlushStep::Done(self.write_message_nonblocking(text.as_str()))
        }
    }

    /// Writes the message in the back buffer, but NOT on the socket.
    fn write_message_nonblocking(&mut self, message: &str) -> (result: Result<(), ChannelError>)
        requires
            old(self).wf(),
            !old(self)@.blocking,
        ensures
            final(self).wf(),
            final(self).socket() == old(self).socket(),
            (final(self)@, FlushStep::Done(result)) == old(self)@.message_written(message.spec_bytes()),
    {
        match self.frame_message(message.as_bytes()) {
            Ok(()) => {
                self.interest.insert(Ready::writable());
                Ok(())
            },
            Err(error) => Err(error),
        }
    }

    /// Fills the back buffer with the message AND starts to write on the socket.
    fn write_message_blocking(&mut self, message: &str) -> (step: FlushStep)
        requires
            old(self).wf(),
            old(self)@.blocking,
        ensures
            final(self).wf(),
            final(self).socket() == old(self).socket(),
            (final(self)@, step) == old(self)@.message_written(message.spec_bytes()),
    {
        match self.frame_message(message.as_bytes()) {
            Ok(()) => self.flush_turn(),
            Err(error) => FlushStep::Done(Err(error)),
        }
    }

    /// Appends the message and its end to the back buffer, which moves its data and grows
    /// as needed.
    fn frame_message(&mut self, message: &[u8]) -> (result: Result<(), ChannelError>)
        requires
            old(self).wf(),
        ensures
            final(self).wf(),
            final(self).socket() == old(self).socket(),
            if old(self)@.refuses(message@) {
                &&& final(self)@ == old(self)@.refused()
                &&& result == Err::<(), ChannelError>(
                    ChannelError::MessageTooLarge(old(self)@.back.capacity as usize),
                )
            } else {
                final(self)@ == old(self)@.framed(message@) && result == Ok::<(), ChannelError>(())
            },
    {
        let size: u128 = message.len() as u128 + 1;
        if size > self.back_buf.available_space() as u128 {
            self.back_buf.shift();
        }
        if size > self.back_buf.available_space() as u128 {
            let needed: u128 = size + self.back_buf.available_data() as u128;
            if needed > self.max_buffer_size as u128 {
                return Err(ChannelError::MessageTooLarge(self.back_buf.capacity()));
            }
            self.back_buf.grow(needed as usize);
        }
        assert(self.back_buf@ == old(self)@.back_with_room(message@.len() + 1));
        self.back_buf.write(message);
        assert(message@.take(message@.len() as int) =~= message@);
        let end: [u8; 1] = [0u8];
        self.back_buf.write(end.as_slice());
        assert(end@.take(1) =~= seq![0u8]);
        Ok(())
    }

    fn flush_turn(&self) -> (step: FlushStep)
        requires
            self.wf(),
        ensures
            step == self@.flush_turn(),
    {
        if self.back_buf.available_data() == 0 {
            FlushStep::Done(Ok(()))
        } else {
            FlushStep::Write
        }
    }

    /// Drops what the socket took from the back buffer, while a message is written to a
    /// blocking channel. The write has succeeded once the back buffer is empty.
    pub fn message_sent(&mut self, sent: Sent) -> (step: FlushStep)
        requires
            old(self).wf(),
        ensures
            final(self).wf(),
            final(self).socket() == old(self).socket(),
            (final(self)@, step) == old(self)@.flush_sent(sent),
    {
        match sent {
            Sent::Count(taken) => {
                if taken == 0 {
                    return FlushStep::Done(Err(ChannelError::NoByteWritten));
                }
                self.back_buf.consume(taken);
                self.flush_turn()
            },
            Sent::WouldBlock(error) => FlushStep::Done(Err(ChannelError::Read(error))),
            Sent::Failed(error) => FlushStep::Done(Err(ChannelError::Read(error))),
        }
    }
}

} // verus!
