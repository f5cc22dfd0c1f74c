//! What holds between a channel that sends and one that receives.

use crate::channel::{blocking_read, decoded, encoded_bytes, message_read, nonblocking_read};
use crate::error::ChannelError;
use crate::model::{frame, law_message_or_none, message_ends_at, no_message, ChannelView};
use crate::outcomes::law_encoded_text_is_written;
use crate::ready::Ready;
use crate::sessions::law_accepted_message_is_appended;
use crate::step::{MessageStep, ReceivedView, Sent};
use vstd::prelude::*;
use vstd::string::StringSliceAdditionalSpecFns;
use vstd::utf8::{
    char_u32_cast, encode_scalar, encode_utf8, encode_utf8_decode_utf8, encode_utf8_valid_utf8,
};

verus! {

/// The bytes of these messages, one frame after the other.
pub open spec fn stream_of(messages: Seq<Seq<u8>>) -> Seq<u8>
    decreases messages.len(),
{
    if messages.len() == 0 {
        seq![]
    } else {
        frame(messages.first()) + stream_of(messages.drop_first())
    }
}

/// One channel that sends to another, and what happened between them.
#[verifier::ext_equal]
pub struct Link {
    pub sender: ChannelView,
    /// What left the sender and did not reach the receiver yet.
    pub wire: Seq<u8>,
    pub receiver: ChannelView,
    /// The messages that the sender accepted, in order.
    pub written: Seq<Seq<u8>>,
    /// The messages that the receiver gave out, in order.
    pub read: Seq<Seq<u8>>,
}

/// Something that happens on a [`Link`].
pub enum LinkStep {
    /// A message is written to the sender.
    Write(Seq<u8>),
    /// The sender's socket answers that it was written to.
    Send(Sent),
    /// The receiver's socket answers that it was read from.
    Receive(ReceivedView),
    /// A message is read from the receiver, and can be decoded.
    Read,
    /// The sockets become ready for something.
    Events { sender: Ready, receiver: Ready },
    /// The channels are set to be blocking or not.
    Switch { sender_blocks: bool, receiver_blocks: bool },
    /// Anything that leaves alone what this link carries: an operation starts, or data goes
    /// from the receiver to the sender.
    Aside { sender_then: ChannelView, receiver_then: ChannelView },
}

impl Link {
    pub open spec fn wf(self) -> bool {
        self.sender.wf() && self.receiver.wf()
    }

    /// The bytes between the writing and the reading end, oldest first.
    pub open spec fn in_flight(self) -> Seq<u8> {
        self.receiver.front.data + self.wire + self.sender.back.data
    }

    /// No byte is lost, added or moved: the messages that were read are the first that
    /// were written, and the bytes in flight are the frames of the others.
    pub open spec fn in_order(self) -> bool {
        &&& self.read.len() <= self.written.len()
        &&& self.read == self.written.take(self.read.len() as int)
        &&& self.in_flight() == stream_of(self.written.skip(self.read.len() as int))
        &&& forall|i: int| 0 <= i < self.written.len() ==> no_message(#[trigger] self.written[i])
    }

    /// A message holds no zero byte, a socket takes no more than it is given, and it gives
    /// no more than it is asked for, and nothing but what is on the wire. What happens aside
    /// keeps the data that the sender has to send and that the receiver has to read.
    pub open spec fn allows(self, step: LinkStep) -> bool {
        match step {
            LinkStep::Write(message) => no_message(message),
            LinkStep::Send(sent) => sent.within(self.sender.back.data.len() as int),
            LinkStep::Receive(received) => {
                &&& received.within(self.receiver.front.space())
                &&& received matches ReceivedView::Bytes(bytes) ==> bytes.is_prefix_of(self.wire)
            },
            LinkStep::Aside { sender_then, receiver_then } => {
                &&& sender_then.wf()
                &&& receiver_then.wf()
                &&& sender_then.back.data == self.sender.back.data
                &&& receiver_then.front.data == self.receiver.front.data
            },
            _ => true,
        }
    }

    pub open spec fn after(self, step: LinkStep) -> Link {
        match step {
            LinkStep::Write(message) => Link {
                sender: self.sender.message_written(message).0,
                written: if self.sender.refuses(message) {
                    self.written
                } else {
                    self.written.push(message)
                },
                ..self
            },
            LinkStep::Send(sent) => Link {
                sender: if self.sender.blocking {
                    self.sender.flush_sent(sent).0
                } else {
                    self.sender.writable_sent(0, sent).0
                },
                wire: match sent {
                    Sent::Count(taken) => self.wire + self.sender.back.data.take(taken as int),
                    _ => self.wire,
                },
                ..self
            },
            LinkStep::Receive(received) => Link {
                receiver: if self.receiver.blocking {
                    self.receiver.message_received(received).0
                } else {
                    self.receiver.readable_received(0, received).0
                },
                wire: match received {
                    ReceivedView::Bytes(bytes) => self.wire.skip(bytes.len() as int),
                    _ => self.wire,
                },
                ..self
            },
            LinkStep::Read => if no_message(self.receiver.front.data) {
                Link {
                    receiver: if self.receiver.blocking {
                        self.receiver.front_extended()
                    } else {
                        self.receiver.nothing_read()
                    },
                    ..self
                }
            } else {
                let length = choose|length: int| message_ends_at(self.receiver.front.data, length);
                Link {
                    receiver: self.receiver.message_taken(length as nat),
                    read: self.read.push(self.receiver.front.data.take(length)),
                    ..self
                }
            },
            LinkStep::Events { sender, receiver } => Link {
                sender: ChannelView {
                    readiness: self.sender.readiness.either(sender),
                    ..self.sender
                },
                receiver: ChannelView {
                    readiness: self.receiver.readiness.either(receiver),
                    ..self.receiver
                },
                ..self
            },
            LinkStep::Switch { sender_blocks, receiver_blocks } => Link {
                sender: ChannelView { blocking: sender_blocks, ..self.sender },
                receiver: ChannelView { blocking: receiver_blocks, ..self.receiver },
                ..self
            },
            LinkStep::Aside { sender_then, receiver_then } => Link {
                sender: sender_then,
                receiver: receiver_then,
                ..self
            },
        }
    }

    /// Each step is allowed where it happens.
    pub open spec fn allows_all(self, steps: Seq<LinkStep>) -> bool
        decreases steps.len(),
    {
        steps.len() == 0 || (self.allows(steps.first()) && self.after(steps.first()).allows_all(
            steps.drop_first(),
        ))
    }

    pub open spec fn after_all(self, steps: Seq<LinkStep>) -> Link
        decreases steps.len(),
    {
        if steps.len() == 0 {
            self
        } else {
            self.after(steps.first()).after_all(steps.drop_first())
        }
    }
}

proof fn lemma_stream_push(messages: Seq<Seq<u8>>, message: Seq<u8>)
    ensures
        stream_of(messages.push(message)) == stream_of(messages) + frame(message),
    decreases messages.len(),
{
    let pushed = messages.push(message);
    if messages.len() == 0 {
        assert(pushed.drop_first() =~= seq![]);
        assert(stream_of(pushed.drop_first()) =~= seq![]);
        assert(stream_of(pushed) =~= frame(message));
        assert(stream_of(messages) + frame(message) =~= frame(message));
    } else {
        assert(pushed.drop_first() =~= messages.drop_first().push(message));
        lemma_stream_push(messages.drop_first(), message);
        assert(stream_of(pushed) =~= stream_of(messages) + frame(message));
    }
}

/// A message that ends within a prefix of a stream is the first message of the stream.
proof fn lemma_first_of_stream(
    messages: Seq<Seq<u8>>,
    prefix: Seq<u8>,
    rest: Seq<u8>,
    length: int,
)
    requires
        forall|i: int| 0 <= i < messages.len() ==> no_message(#[trigger] messages[i]),
        prefix + rest == stream_of(messages),
        message_ends_at(prefix, length),
    ensures
        messages.len() > 0,
        length == messages[0].len(),
        prefix.take(length) == messages[0],
        prefix.skip(length + 1) + rest == stream_of(messages.drop_first()),
{
    let stream = stream_of(messages);
    assert(stream[length] == prefix[length]);
    assert(messages.len() > 0) by {
        assert(stream.len() > length);
    }
    let first = messages[0];
    assert(no_message(first));
    assert(forall|i: int| 0 <= i < length ==> stream[i] == prefix[i]);
    assert(stream == frame(first) + stream_of(messages.drop_first()));
    if length < first.len() {
        assert(stream[length] == first[length]);
    }
    if length > first.len() {
        assert(stream[first.len() as int] == 0);
        assert(prefix[first.len() as int] == 0);
    }
    assert(prefix.take(length) =~= first) by {
        assert forall|i: int| 0 <= i < length implies prefix[i] == first[i] by {
            assert(stream[i] == first[i]);
        }
    }
    assert(prefix.skip(length + 1) + rest =~= stream.skip(length + 1));
    assert(stream.skip(length + 1) =~= stream_of(messages.drop_first()));
}

proof fn lemma_write_keeps_order(link: Link, message: Seq<u8>)
    requires
        link.wf(),
        link.in_order(),
        no_message(message),
    ensures
        link.after(LinkStep::Write(message)).wf(),
        link.after(LinkStep::Write(message)).in_order(),
{
    let next = link.after(LinkStep::Write(message));
    let done = link.read.len() as int;
    if !link.sender.refuses(message) {
        law_accepted_message_is_appended(link.sender, message);
        lemma_stream_push(link.written.skip(done), message);
        assert(next.written.skip(done) =~= link.written.skip(done).push(message));
        assert(next.in_flight() =~= link.in_flight() + frame(message));
        assert(next.written.take(done) =~= link.written.take(done));
    }
}

proof fn lemma_send_keeps_order(link: Link, sent: Sent)
    requires
        link.wf(),
        link.in_order(),
        link.allows(LinkStep::Send(sent)),
    ensures
        link.after(LinkStep::Send(sent)).wf(),
        link.after(LinkStep::Send(sent)).in_order(),
{
    let next = link.after(LinkStep::Send(sent));
    assert(next.in_flight() =~= link.in_flight());
}

proof fn lemma_receive_keeps_order(link: Link, received: ReceivedView)
    requires
        link.wf(),
        link.in_order(),
        link.allows(LinkStep::Receive(received)),
    ensures
        link.after(LinkStep::Receive(received)).wf(),
        link.after(LinkStep::Receive(received)).in_order(),
{
    let next = link.after(LinkStep::Receive(received));
    assert(next.in_flight() =~= link.in_flight());
}

proof fn lemma_read_keeps_order(link: Link)
    requires
        link.wf(),
        link.in_order(),
    ensures
        link.after(LinkStep::Read).wf(),
        link.after(LinkStep::Read).in_order(),
{
    let next = link.after(LinkStep::Read);
    let done = link.read.len() as int;
    let data = link.receiver.front.data;
    law_message_or_none(data);
    if !no_message(data) {
        let length = choose|length: int| message_ends_at(data, length);
        let rest = link.wire + link.sender.back.data;
        let messages = link.written.skip(done);
        assert(data + rest =~= link.in_flight());
        assert forall|i: int| 0 <= i < messages.len() implies no_message(
            #[trigger] messages[i],
        ) by {
            assert(messages[i] == link.written[done + i]);
        }
        lemma_first_of_stream(messages, data, rest, length);
        assert(messages[0] == link.written[done]);
        assert(messages.drop_first() =~= link.written.skip(done + 1));
        assert(next.in_flight() =~= data.skip(length + 1) + rest);
        assert(next.read =~= link.written.take(done + 1));
    }
}

/// Law: a link stays in order while its channels do anything else, as long as the sender keeps
/// the data that it has to send, and the receiver the data that came in.
pub proof fn law_order_rests_on_the_data(link: Link, sender: ChannelView, receiver: ChannelView)
    requires
        link.in_order(),
        sender.back.data == link.sender.back.data,
        receiver.front.data == link.receiver.front.data,
    ensures
        (Link { sender, receiver, ..link }).in_order(),
{
}

/// What the channel has to send, and how far it has room for more, is as before.
pub open spec fn same_outgoing(before: ChannelView, after: ChannelView) -> bool {
    after.wf() && after.back == before.back
}

/// What came in, and how far there is room for more, is as before.
pub open spec fn same_incoming(before: ChannelView, after: ChannelView) -> bool {
    after.wf() && after.front == before.front
}

/// Law: to start an operation changes no data, in either direction.
pub proof fn law_starting_keeps_all_data(channel: ChannelView)
    requires
        channel.wf(),
    ensures
        same_outgoing(channel, channel.readable_started().0),
        same_incoming(channel, channel.readable_started().0),
        same_outgoing(channel, channel.writable_started().0),
        same_incoming(channel, channel.writable_started().0),
        same_outgoing(channel, channel.run_started().0),
        same_incoming(channel, channel.run_started().0),
{
}

/// Law: to read, in any way, leaves what the channel has to send.
pub proof fn law_reading_keeps_what_is_to_be_sent(
    channel: ChannelView,
    then_write: bool,
    count: nat,
    received: ReceivedView,
    length: nat,
)
    requires
        channel.wf(),
    ensures
        received.within(channel.front.space()) ==> {
            &&& same_outgoing(channel, channel.readable_received(count, received).0)
            &&& same_outgoing(channel, channel.run_received(then_write, count, received).0)
            &&& same_outgoing(channel, channel.message_received(received).0)
        },
        message_ends_at(channel.front.data, length as int) ==> same_outgoing(
            channel,
            channel.message_taken(length),
        ),
        same_outgoing(channel, channel.front_extended()),
        same_outgoing(channel, channel.nothing_read()),
{
}

/// Law: to write, in any way, leaves what came in.
pub proof fn law_writing_keeps_what_came_in(
    channel: ChannelView,
    count: nat,
    sent: Sent,
    message: Seq<u8>,
)
    requires
        channel.wf(),
    ensures
        sent.within(channel.back.data.len() as int) ==> {
            &&& same_incoming(channel, channel.writable_sent(count, sent).0)
            &&& same_incoming(channel, channel.run_sent(count, sent).0)
            &&& same_incoming(channel, channel.flush_sent(sent).0)
        },
        same_incoming(channel, channel.message_written(message).0),
{
    if !channel.refuses(message) {
        law_accepted_message_is_appended(channel, message);
    }
}

/// Law: whatever happens on a link, no byte is lost, added or moved.
pub proof fn law_step_keeps_order(link: Link, step: LinkStep)
    requires
        link.wf(),
        link.in_order(),
        link.allows(step),
    ensures
        link.after(step).wf(),
        link.after(step).in_order(),
{
    match step {
        LinkStep::Write(message) => lemma_write_keeps_order(link, message),
        LinkStep::Send(sent) => lemma_send_keeps_order(link, sent),
        LinkStep::Receive(received) => lemma_receive_keeps_order(link, received),
        LinkStep::Read => lemma_read_keeps_order(link),
        _ => {},
    }
}

/// Law: two channels that send to each other do not disturb each other: whatever happens on the
/// link in one direction, the link in the other direction stays in order.
pub proof fn law_directions_are_apart(link: Link, back: Link, step: LinkStep)
    requires
        link.wf(),
        link.in_order(),
        link.allows(step),
        step !is Aside,
        back.sender == link.receiver,
        back.receiver == link.sender,
        back.in_order(),
    ensures
        ({
            let next = link.after(step);
            let aside = LinkStep::Aside { sender_then: next.receiver, receiver_then: next.sender };
            &&& back.allows(aside)
            &&& back.after(aside).wf()
            &&& back.after(aside).in_order()
        }),
{
    law_step_keeps_order(link, step);
    let next = link.after(step);
    match step {
        LinkStep::Write(message) => {
            if !link.sender.refuses(message) {
                law_accepted_message_is_appended(link.sender, message);
            }
        },
        _ => {},
    }
    law_order_rests_on_the_data(back, next.receiver, next.sender);
}

/// Law: messages arrive whole and in the order in which they were written, however the
/// sockets cut the bytes, and whatever happens in between.
pub proof fn law_messages_arrive_in_order(link: Link, steps: Seq<LinkStep>)
    requires
        link.wf(),
        link.in_order(),
        link.allows_all(steps),
    ensures
        link.after_all(steps).wf(),
        link.after_all(steps).in_order(),
    decreases steps.len(),
{
    if steps.len() > 0 {
        law_step_keeps_order(link, steps.first());
        law_messages_arrive_in_order(link.after(steps.first()), steps.drop_first());
    }
}

/// Law: two channels that hold no data are in order, so that all of the above holds from
/// the start.
pub proof fn law_empty_link_is_in_order(sender: ChannelView, receiver: ChannelView)
    requires
        sender.back.data.len() == 0,
        receiver.front.data.len() == 0,
    ensures
        (Link { sender, wire: seq![], receiver, written: seq![], read: seq![] }).in_order(),
{
    let link = Link { sender, wire: seq![], receiver, written: seq![], read: seq![] };
    assert(link.in_flight() =~= seq![]);
    assert(link.written.skip(0) =~= seq![]);
    assert(link.read =~= link.written.take(0));
}

/// Law: once all bytes have arrived, a read gives the first message that was written and
/// not read, byte for byte.
pub proof fn law_read_gives_what_was_written(link: Link)
    requires
        link.wf(),
        link.in_order(),
        link.wire.len() == 0,
        link.sender.back.data.len() == 0,
        link.read.len() < link.written.len(),
    ensures
        ({
            let next = link.written[link.read.len() as int];
            &&& message_ends_at(link.receiver.front.data, next.len() as int)
            &&& link.receiver.front.data.take(next.len() as int) == next
            &&& link.after(LinkStep::Read).read == link.read.push(next)
        }),
{
    let done = link.read.len() as int;
    let next = link.written[done];
    let messages = link.written.skip(done);
    let data = link.receiver.front.data;
    assert(link.in_flight() =~= data);
    assert(messages[0] == next);
    assert(data == frame(next) + stream_of(messages.drop_first()));
    assert(no_message(next));
    assert forall|i: int| 0 <= i < next.len() implies data[i] != 0 by {
        assert(data[i] == next[i]);
    }
    assert(data[next.len() as int] == 0);
    assert(message_ends_at(data, next.len() as int));
    assert(data.take(next.len() as int) =~= next);
    let length = choose|length: int| message_ends_at(data, length);
    assert(length == next.len());
}

/// Law: once all bytes have arrived, one read for each message that was written and not read
/// gives all of them, in order and each once, and leaves nothing behind.
pub proof fn law_reads_give_all_that_was_written(link: Link, reads: Seq<LinkStep>)
    requires
        link.wf(),
        link.in_order(),
        link.wire.len() == 0,
        link.sender.back.data.len() == 0,
        reads.len() == link.written.len() - link.read.len(),
        forall|i: int| 0 <= i < reads.len() ==> #[trigger] reads[i] == LinkStep::Read,
    ensures
        link.after_all(reads).read == link.written,
        link.after_all(reads).receiver.front.data.len() == 0,
    decreases reads.len(),
{
    if reads.len() == 0 {
        assert(link.written.skip(link.read.len() as int) =~= seq![]);
        assert(link.in_flight().len() == 0);
        assert(link.read =~= link.written);
    } else {
        assert(reads[0] == LinkStep::Read);
        law_read_gives_what_was_written(link);
        law_step_keeps_order(link, LinkStep::Read);
        let rest = reads.drop_first();
        assert forall|i: int| 0 <= i < rest.len() implies #[trigger] rest[i] == LinkStep::Read by {
            assert(rest[i] == reads[i + 1]);
        }
        law_reads_give_all_that_was_written(link.after(LinkStep::Read), rest);
    }
}

proof fn lemma_char_bytes(c: char)
    requires
        c != '\0',
    ensures
        no_message(encode_scalar(c as u32)),
{
    let scalar = c as u32;
    char_u32_cast(c, scalar);
    assert(scalar != 0);
    assert(scalar <= 0x7F && scalar != 0 ==> (scalar & 0x7F) as u8 != 0) by (bit_vector);
    assert(forall|byte: u8| #[trigger] (0xC0u8 | byte) != 0) by (bit_vector);
    assert(forall|byte: u8| #[trigger] (0xE0u8 | byte) != 0) by (bit_vector);
    assert(forall|byte: u8| #[trigger] (0xF0u8 | byte) != 0) by (bit_vector);
    assert(forall|byte: u8| #[trigger] (0x80u8 | byte) != 0) by (bit_vector);
}

/// Law: a text without NUL characters has no zero byte, so that it can be a message.
pub proof fn law_text_is_a_message(text: Seq<char>)
    requires
        forall|i: int| 0 <= i < text.len() ==> text[i] != '\0',
    ensures
        no_message(encode_utf8(text)),
    decreases text.len(),
{
    if text.len() > 0 {
        let rest = text.drop_first();
        assert forall|i: int| 0 <= i < rest.len() implies rest[i] != '\0' by {
            assert(rest[i] == text[i + 1]);
        }
        law_text_is_a_message(rest);
        let first = encode_scalar(text[0] as u32);
        lemma_char_bytes(text[0]);
        let bytes = encode_utf8(text);
        assert forall|i: int| 0 <= i < bytes.len() implies bytes[i] != 0 by {
            if i >= first.len() {
                assert(bytes[i] == encode_utf8(rest)[i - first.len()]);
            }
        }
    }
}

/// Law: the decoder is handed the very text that the encoder gave.
pub proof fn law_decoder_gets_the_written_text<Rx, F: FnOnce(&str) -> Result<Rx, serde_json::Error>>(
    before: ChannelView,
    after: ChannelView,
    length: nat,
    written: Seq<char>,
    parse: F,
    result: Result<Rx, ChannelError>,
)
    requires
        before.front.data.take(length as int) == encode_utf8(written),
        message_read(before, after, length, parse, result),
    ensures
        exists|text: &str, parsed: Result<Rx, serde_json::Error>|
            {
                &&& text@ == written
                &&& #[trigger] parse.ensures((text,), parsed)
                &&& decoded(before, after, length, parsed, result)
            },
{
    encode_utf8_valid_utf8(written);
    let bytes = before.front.data.take(length as int);
    let (text, parsed) = choose|text: &str, parsed: Result<Rx, serde_json::Error>|
        {
            &&& text.spec_bytes() == bytes
            &&& #[trigger] parse.ensures((text,), parsed)
            &&& decoded(before, after, length, parsed, result)
        };
    encode_utf8_decode_utf8(text@);
    encode_utf8_decode_utf8(written);
    assert(text@ == written);
}

/// Law: once all bytes have arrived, reading gives back the message that was written: where the
/// first message that was written and not read is `written` as text, and `parse` makes `message`
/// of this text, a read gives `message`, without waiting as well as blocking.
pub proof fn law_read_gives_back_the_message<Rx, F: FnOnce(&str) -> Result<Rx, serde_json::Error>>(
    link: Link,
    after: ChannelView,
    written: Seq<char>,
    message: Rx,
    parse: F,
    result: Result<Rx, ChannelError>,
)
    requires
        link.wf(),
        link.in_order(),
        link.wire.len() == 0,
        link.sender.back.data.len() == 0,
        link.read.len() < link.written.len(),
        link.written[link.read.len() as int] == encode_utf8(written),
        forall|text: &str, parsed: Result<Rx, serde_json::Error>|
            text@ == written && #[trigger] parse.ensures((text,), parsed) ==> parsed == Ok::<
                Rx,
                serde_json::Error,
            >(message),
        nonblocking_read(link.receiver, after, parse, result) || exists|
            timeout: Option<u128>,
            elapsed: u128,
        |
            {
                &&& timeout is None || elapsed < timeout->0
                &&& #[trigger] blocking_read(
                    link.receiver,
                    after,
                    timeout,
                    elapsed,
                    parse,
                    MessageStep::Done(result),
                )
            },
    ensures
        result == Ok::<Rx, ChannelError>(message),
        after == link.after(LinkStep::Read).receiver,
{
    law_read_gives_what_was_written(link);
    let length = encode_utf8(written).len();
    let data = link.receiver.front.data;
    law_message_or_none(data);
    assert(message_ends_at(data, length as int));
    law_decoder_gets_the_written_text(link.receiver, after, length, written, parse, result);
}

/// What was written before stays written, in its place.
proof fn lemma_written_stays(link: Link, steps: Seq<LinkStep>)
    ensures
        link.written.is_prefix_of(link.after_all(steps).written),
    decreases steps.len(),
{
    if steps.len() > 0 {
        let next = link.after(steps.first());
        assert(link.written.is_prefix_of(next.written));
        lemma_written_stays(next, steps.drop_first());
    }
}

/// Law: to write what the encoder gave is to write its very text, whatever its length, wherever that
/// fits.
pub proof fn law_encoded_text_goes_on_the_link(
    link: Link,
    text: Seq<char>,
    encoded: Result<String, serde_json::Error>,
)
    requires
        link.wf(),
        encoded matches Ok(given) && given@ == text,
        ({
            let needed = link.sender.back.data.len() + encode_utf8(text).len() + 1;
            needed <= link.sender.back.capacity || needed <= link.sender.max_buffer_size
        }),
    ensures
        ({
            let next = link.after(LinkStep::Write(encoded_bytes(encoded)));
            &&& next.written == link.written.push(encode_utf8(text))
            &&& next.sender.back.data == link.sender.back.data + encode_utf8(text) + seq![0u8]
            &&& next.wire == link.wire
            &&& next.receiver == link.receiver
            &&& next.read == link.read
        }),
{
    law_encoded_text_is_written(link.sender, encoded);
}

/// Law: a message that was written comes back when it is read. Where the encoder gave `text`, which
/// fits and has no NUL character, then, whatever happens in between, as soon as all bytes have
/// arrived and all messages before it were read, a read hands the decoder the very `text`, and gives
/// what the decoder makes of it.
pub proof fn law_written_message_comes_back<Rx, F: FnOnce(&str) -> Result<Rx, serde_json::Error>>(
    link: Link,
    text: Seq<char>,
    encoded: Result<String, serde_json::Error>,
    steps: Seq<LinkStep>,
    after: ChannelView,
    message: Rx,
    parse: F,
    result: Result<Rx, ChannelError>,
)
    requires
        link.wf(),
        link.in_order(),
        encoded matches Ok(given) && given@ == text,
        forall|i: int| 0 <= i < text.len() ==> text[i] != '\0',
        ({
            let needed = link.sender.back.data.len() + encode_utf8(text).len() + 1;
            needed <= link.sender.back.capacity || needed <= link.sender.max_buffer_size
        }),
        link.after(LinkStep::Write(encoded_bytes(encoded))).allows_all(steps),
        ({
            let then = link.after(LinkStep::Write(encoded_bytes(encoded))).after_all(steps);
            &&& then.wire.len() == 0
            &&& then.sender.back.data.len() == 0
            &&& then.read.len() == link.written.len()
            &&& nonblocking_read(then.receiver, after, parse, result) || blocking_read(
                then.receiver,
                after,
                None,
                0,
                parse,
                MessageStep::Done(result),
            )
        }),
        forall|given: &str, parsed: Result<Rx, serde_json::Error>|
            given@ == text && #[trigger] parse.ensures((given,), parsed) ==> parsed == Ok::<
                Rx,
                serde_json::Error,
            >(message),
    ensures
        result == Ok::<Rx, ChannelError>(message),
{
    let write = LinkStep::Write(encoded_bytes(encoded));
    let next = link.after(write);
    let then = next.after_all(steps);
    law_text_is_a_message(text);
    law_encoded_text_goes_on_the_link(link, text, encoded);
    assert(encoded_bytes(encoded) == encode_utf8(text));
    law_step_keeps_order(link, write);
    law_messages_arrive_in_order(next, steps);
    lemma_written_stays(next, steps);
    let place = link.written.len() as int;
    assert(next.written[place] == encode_utf8(text));
    assert(then.written[place] == next.written[place]);
    law_read_gives_back_the_message(then, after, text, message, parse, result);
}

} // verus!
