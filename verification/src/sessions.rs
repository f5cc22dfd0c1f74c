//! What holds of the operations of one channel, over all answers of its socket.

use crate::buffer::BufferView;
use crate::error::ChannelError;
use crate::model::{frame, no_message, ChannelView};
use crate::outcomes::law_message_is_accepted_where_it_fits;
use crate::ready::Ready;
use crate::step::{FlushStep, ReadableStep, ReceivedView, RunStep, Sent, WritableStep};
use vstd::prelude::*;

verus! {

/// All bytes that these answers of a socket brought in.
pub open spec fn bytes_of(answers: Seq<ReceivedView>) -> Seq<u8>
    decreases answers.len(),
{
    if answers.len() == 0 {
        seq![]
    } else {
        (match answers.first() {
            ReceivedView::Bytes(bytes) => bytes,
            _ => seq![],
        }) + bytes_of(answers.drop_first())
    }
}

/// How many bytes a socket took, by these answers.
pub open spec fn count_of(answers: Seq<Sent>) -> nat
    decreases answers.len(),
{
    if answers.len() == 0 {
        0
    } else {
        (match answers.first() {
            Sent::Count(taken) => taken as nat,
            _ => 0,
        }) + count_of(answers.drop_first())
    }
}

/// Where filling the front buffer stands after these answers.
pub open spec fn readable_session(
    state: (ChannelView, ReadableStep),
    answers: Seq<ReceivedView>,
) -> (ChannelView, ReadableStep)
    decreases answers.len(),
{
    if answers.len() == 0 {
        state
    } else {
        readable_session(
            state.0.readable_received(state.1->count as nat, answers.first()),
            answers.drop_first(),
        )
    }
}

/// Each of these answers was asked for, and brings no more than was asked for.
pub open spec fn readable_answers(
    state: (ChannelView, ReadableStep),
    answers: Seq<ReceivedView>,
) -> bool
    decreases answers.len(),
{
    answers.len() == 0 || {
        &&& state.1 is Read
        &&& answers.first().within(state.1->limit as int)
        &&& readable_answers(
            state.0.readable_received(state.1->count as nat, answers.first()),
            answers.drop_first(),
        )
    }
}

/// Where emptying the back buffer stands after these answers.
pub open spec fn writable_session(state: (ChannelView, WritableStep), answers: Seq<Sent>) -> (
    ChannelView,
    WritableStep,
)
    decreases answers.len(),
{
    if answers.len() == 0 {
        state
    } else {
        writable_session(
            state.0.writable_sent(state.1->count as nat, answers.first()),
            answers.drop_first(),
        )
    }
}

/// Each of these answers was asked for, and takes no more than there is.
pub open spec fn writable_answers(state: (ChannelView, WritableStep), answers: Seq<Sent>) -> bool
    decreases answers.len(),
{
    answers.len() == 0 || {
        &&& state.1 is Write
        &&& answers.first().within(state.0.back.data.len() as int)
        &&& writable_answers(
            state.0.writable_sent(state.1->count as nat, answers.first()),
            answers.drop_first(),
        )
    }
}

/// Where a blocking write stands after these answers.
pub open spec fn flush_session(state: (ChannelView, FlushStep), answers: Seq<Sent>) -> (
    ChannelView,
    FlushStep,
)
    decreases answers.len(),
{
    if answers.len() == 0 {
        state
    } else {
        flush_session(state.0.flush_sent(answers.first()), answers.drop_first())
    }
}

/// Each of these answers was asked for, and takes no more than there is.
pub open spec fn flush_answers(state: (ChannelView, FlushStep), answers: Seq<Sent>) -> bool
    decreases answers.len(),
{
    answers.len() == 0 || {
        &&& state.1 is Write
        &&& answers.first().within(state.0.back.data.len() as int)
        &&& flush_answers(state.0.flush_sent(answers.first()), answers.drop_first())
    }
}

/// A channel that waited for a message while these answers came in.
pub open spec fn waited(channel: ChannelView, answers: Seq<ReceivedView>) -> ChannelView
    decreases answers.len(),
{
    if answers.len() == 0 {
        channel
    } else {
        waited(
            channel.front_extended().message_received(answers.first()).0,
            answers.drop_first(),
        )
    }
}

/// Each of these answers was waited for: no message was there, and the front buffer had
/// space or could grow. None brings more than there is space for.
pub open spec fn wait_answers(channel: ChannelView, answers: Seq<ReceivedView>) -> bool
    decreases answers.len(),
{
    answers.len() == 0 || {
        &&& no_message(channel.front.data)
        &&& !channel.front_exhausted()
        &&& answers.first().within(channel.front_extended().front.space())
        &&& wait_answers(
            channel.front_extended().message_received(answers.first()).0,
            answers.drop_first(),
        )
    }
}

/// What a channel with these flags is ready for once some are cleared.
proof fn lemma_cleared_flags(interest: Ready, readiness: Ready)
    ensures
        ({
            let (read, write) = (Ready::readable(), Ready::writable());
            let ready = interest.both(readiness);
            &&& !interest.without(read).both(readiness).has(read)
            &&& !interest.both(readiness.without(read)).has(read)
            &&& !interest.without(write).both(readiness).has(write)
            &&& !interest.both(readiness.without(write)).has(write)
            &&& interest.without(read).both(readiness).has(write) == ready.has(write)
            &&& interest.both(readiness.without(read)).has(write) == ready.has(write)
            &&& interest.without(write).both(readiness).has(read) == ready.has(read)
            &&& interest.both(readiness.without(write)).has(read) == ready.has(read)
        }),
{
    let (i, r) = (interest.0, readiness.0);
    assert({
        &&& ((i & !1u16) & r) & 1 != 1
        &&& (i & (r & !1u16)) & 1 != 1
        &&& ((i & !2u16) & r) & 2 != 2
        &&& (i & (r & !2u16)) & 2 != 2
        &&& (((i & !1u16) & r) & 2 == 2) == ((i & r) & 2 == 2)
        &&& ((i & (r & !1u16)) & 2 == 2) == ((i & r) & 2 == 2)
        &&& (((i & !2u16) & r) & 1 == 1) == ((i & r) & 1 == 1)
        &&& ((i & (r & !2u16)) & 1 == 1) == ((i & r) & 1 == 1)
    }) by (bit_vector);
}

/// A channel that waits for nothing is ready for nothing.
proof fn lemma_no_interest(readiness: Ready)
    ensures
        !Ready::empty().both(readiness).has(Ready::readable()),
        !Ready::empty().both(readiness).has(Ready::writable()),
{
    let r = readiness.0;
    assert((0 & r) & 1 != 1 && (0 & r) & 2 != 2) by (bit_vector);
}

/// The flags of a channel whose front buffer is filled, or was: they stay as long as it goes on.
/// A full buffer ends the interest in input, a socket that would block ends the readiness for
/// it, and a broken one ends all interest.
pub open spec fn readable_flags(
    before: ChannelView,
    after: ChannelView,
    step: ReadableStep,
    answers: Seq<ReceivedView>,
) -> bool {
    match step {
        ReadableStep::Done(Ok(_)) => if answers.len() > 0 && answers.last() is WouldBlock {
            &&& after.interest == before.interest
            &&& after.readiness == before.readiness.without(Ready::readable())
        } else {
            &&& after.front.space() == 0
            &&& after.interest == before.interest.without(Ready::readable())
            &&& after.readiness == before.readiness
        },
        ReadableStep::Done(Err(ChannelError::NoByteToRead)) => {
            &&& after.interest == Ready::empty()
            &&& after.readiness == before.readiness.without(Ready::readable()).either(Ready::hup())
        },
        ReadableStep::Done(Err(ChannelError::Read(_))) => {
            &&& after.interest == Ready::empty()
            &&& after.readiness == Ready::empty()
        },
        _ => after.interest == before.interest && after.readiness == before.readiness,
    }
}

/// The flags of a channel whose back buffer is emptied, or was: they stay as long as it goes on.
/// An empty buffer ends the interest in writing, a socket that would block ends the readiness
/// for it, and a broken one ends all interest.
pub open spec fn writable_flags(
    before: ChannelView,
    after: ChannelView,
    step: WritableStep,
    answers: Seq<Sent>,
) -> bool {
    match step {
        WritableStep::Done(Ok(_)) => if answers.len() > 0 && answers.last() is WouldBlock {
            &&& after.interest == before.interest
            &&& after.readiness == before.readiness.without(Ready::writable())
        } else {
            &&& after.back.data.len() == 0
            &&& after.interest == before.interest.without(Ready::writable())
            &&& after.readiness == before.readiness
        },
        WritableStep::Done(Err(ChannelError::NoByteWritten)) => {
            &&& after.interest == Ready::empty()
            &&& after.readiness == before.readiness.either(Ready::hup())
        },
        WritableStep::Done(Err(ChannelError::Read(_))) => {
            &&& after.interest == Ready::empty()
            &&& after.readiness == Ready::empty()
        },
        _ => after.interest == before.interest && after.readiness == before.readiness,
    }
}

proof fn lemma_readable_session(state: (ChannelView, ReadableStep), answers: Seq<ReceivedView>)
    requires
        state.0.wf(),
        state.1 is Read ==> {
            &&& state.1->limit == state.0.front.space()
            &&& state.0.front.space() > 0
            &&& state.1->count <= state.0.front.data.len()
        },
        readable_answers(state, answers),
    ensures
        ({
            let (after, step) = readable_session(state, answers);
            let came = bytes_of(answers);
            &&& after.wf()
            &&& after.front.data == state.0.front.data + came
            &&& after.front.capacity == state.0.front.capacity
            &&& after.back == state.0.back
            &&& after.max_buffer_size == state.0.max_buffer_size
            &&& after.blocking == state.0.blocking
            &&& answers.len() > 0 ==> match step {
                ReadableStep::Read { count, limit } => {
                    &&& count == state.1->count + came.len()
                    &&& limit == after.front.space()
                    &&& limit > 0
                },
                ReadableStep::Done(Ok(count)) => count == state.1->count + came.len(),
                ReadableStep::Done(Err(error)) => error is NoByteToRead || error is Read,
            }
            &&& answers.len() > 0 ==> readable_flags(state.0, after, step, answers)
            &&& answers.len() > 0 ==> answers.len() <= state.0.front.capacity
                - state.0.front.data.len() + 1
        }),
    decreases answers.len(),
{
    if answers.len() > 0 {
        let next = state.0.readable_received(state.1->count as nat, answers.first());
        assert(readable_answers(next, answers.drop_first()));
        lemma_readable_session(next, answers.drop_first());
        let after = readable_session(state, answers).0;
        assert(after.front.data =~= state.0.front.data + bytes_of(answers));
    } else {
        assert(state.0.front.data + bytes_of(answers) =~= state.0.front.data);
    }
}

/// Law: filling the front buffer keeps every byte that came in, in order, behind what was
/// there, reports how many came in, and touches nothing of what is to be sent. It is over
/// after at most one answer more than there is room for bytes. Of the rest of the channel only
/// the flags change, and only at the end.
pub proof fn law_readable_keeps_what_came_in(channel: ChannelView, answers: Seq<ReceivedView>)
    requires
        channel.wf(),
        readable_answers(channel.readable_started(), answers),
    ensures
        ({
            let (after, step) = readable_session(channel.readable_started(), answers);
            let came = bytes_of(answers);
            &&& after.wf()
            &&& after.front.data == channel.front.data + came
            &&& after.front.capacity == channel.front.capacity
            &&& after.back == channel.back
            &&& after.max_buffer_size == channel.max_buffer_size
            &&& after.blocking == channel.blocking
            &&& readable_flags(channel, after, step, answers)
            &&& step matches ReadableStep::Read { count, limit } ==> count == came.len() && limit
                == after.front.space() && limit > 0
            &&& step matches ReadableStep::Done(Ok(count)) ==> count == came.len()
            &&& answers.len() <= channel.front.capacity - channel.front.data.len() + 1
        }),
{
    lemma_readable_session(channel.readable_started(), answers);
}

proof fn lemma_writable_session(state: (ChannelView, WritableStep), answers: Seq<Sent>)
    requires
        state.0.wf(),
        state.1 is Write ==> state.0.back.data.len() > 0 && state.1->count
            + state.0.back.data.len() <= usize::MAX,
        writable_answers(state, answers),
    ensures
        ({
            let (after, step) = writable_session(state, answers);
            let went = count_of(answers);
            &&& after.wf()
            &&& went <= state.0.back.data.len()
            &&& after.back.data == state.0.back.data.skip(went as int)
            &&& after.back.capacity == state.0.back.capacity
            &&& after.front == state.0.front
            &&& after.max_buffer_size == state.0.max_buffer_size
            &&& after.blocking == state.0.blocking
            &&& answers.len() > 0 ==> match step {
                WritableStep::Write { count } => count == state.1->count + went
                    && after.back.data.len() > 0,
                WritableStep::Done(Ok(count)) => count == state.1->count + went,
                WritableStep::Done(Err(error)) => error is NoByteWritten || error is Read,
            }
            &&& answers.len() > 0 ==> writable_flags(state.0, after, step, answers)
            &&& answers.len() > 0 ==> answers.len() <= state.0.back.data.len()
        }),
    decreases answers.len(),
{
    if answers.len() > 0 {
        let next = state.0.writable_sent(state.1->count as nat, answers.first());
        assert(writable_answers(next, answers.drop_first()));
        lemma_writable_session(next, answers.drop_first());
        let after = writable_session(state, answers).0;
        assert(after.back.data =~= state.0.back.data.skip(count_of(answers) as int));
    } else {
        assert(state.0.back.data.skip(0) =~= state.0.back.data);
    }
}

/// Law: emptying the back buffer drops exactly what the socket took, from the front, reports
/// how much that was, and touches nothing of what came in. It ends well only where all is gone
/// or the socket would block, and is over after at most as many answers as there are bytes. Of
/// the rest of the channel only the flags change, and only at the end.
pub proof fn law_writable_drops_what_went_out(channel: ChannelView, answers: Seq<Sent>)
    requires
        channel.wf(),
        writable_answers(channel.writable_started(), answers),
    ensures
        ({
            let (after, step) = writable_session(channel.writable_started(), answers);
            let went = count_of(answers);
            &&& after.wf()
            &&& went <= channel.back.data.len()
            &&& after.back.data == channel.back.data.skip(went as int)
            &&& after.back.capacity == channel.back.capacity
            &&& after.front == channel.front
            &&& after.max_buffer_size == channel.max_buffer_size
            &&& after.blocking == channel.blocking
            &&& writable_flags(channel, after, step, answers)
            &&& step matches WritableStep::Write { count } ==> count == went && went
                < channel.back.data.len()
            &&& step matches WritableStep::Done(Ok(count)) ==> count == went
            &&& answers.len() <= channel.back.data.len()
        }),
{
    lemma_writable_session(channel.writable_started(), answers);
}

/// Law: once the front buffer was filled, or that failed, the channel is not ready to read: to
/// fill it again is refused.
pub proof fn law_finished_readable_is_refused(channel: ChannelView, answers: Seq<ReceivedView>)
    requires
        channel.wf(),
        readable_answers(channel.readable_started(), answers),
        readable_session(channel.readable_started(), answers).1 is Done,
    ensures
        ({
            let after = readable_session(channel.readable_started(), answers).0;
            &&& !after.ready_for(Ready::readable())
            &&& after.readable_started() == (
                after,
                ReadableStep::Done(Err(ChannelError::Connection(None))),
            )
        }),
{
    law_readable_keeps_what_came_in(channel, answers);
    lemma_readable_session(channel.readable_started(), answers);
    lemma_cleared_flags(channel.interest, channel.readiness);
    lemma_no_interest(readable_session(channel.readable_started(), answers).0.readiness);
}

/// Law: once the back buffer was emptied, or that failed, the channel is not ready to write: to
/// empty it again is refused.
pub proof fn law_finished_writable_is_refused(channel: ChannelView, answers: Seq<Sent>)
    requires
        channel.wf(),
        writable_answers(channel.writable_started(), answers),
        writable_session(channel.writable_started(), answers).1 is Done,
    ensures
        ({
            let after = writable_session(channel.writable_started(), answers).0;
            &&& !after.ready_for(Ready::writable())
            &&& after.writable_started() == (
                after,
                WritableStep::Done(Err(ChannelError::Connection(None))),
            )
        }),
{
    law_writable_drops_what_went_out(channel, answers);
    lemma_writable_session(channel.writable_started(), answers);
    lemma_cleared_flags(channel.interest, channel.readiness);
    lemma_no_interest(writable_session(channel.writable_started(), answers).0.readiness);
}

/// Law: filling the front buffer ends with an error exactly where the last answer of the socket was
/// an empty read or a failure, and with that error. It ends well where the socket would block or
/// the buffer is full, with the number of bytes that came in, and goes on after any other bytes.
/// Before the last answer, each brought bytes.
pub proof fn law_readable_ends_as_the_socket_answered(
    channel: ChannelView,
    answers: Seq<ReceivedView>,
)
    requires
        channel.wf(),
        readable_answers(channel.readable_started(), answers),
        answers.len() > 0,
    ensures
        ({
            let (after, step) = readable_session(channel.readable_started(), answers);
            let full = after.front.gap + after.front.data.len() == after.front.capacity;
            &&& match answers.last() {
                ReceivedView::Bytes(bytes) => if bytes.len() == 0 {
                    step == ReadableStep::Done(Err(ChannelError::NoByteToRead))
                } else if full {
                    step is Done && step->Done_0 is Ok
                } else {
                    step is Read
                },
                ReceivedView::WouldBlock(_) => step is Done && step->Done_0 is Ok,
                ReceivedView::Failed(error) => step == ReadableStep::Done(
                    Err(ChannelError::Read(error)),
                ),
            }
            &&& step matches ReadableStep::Done(Ok(count)) ==> count == bytes_of(answers).len()
            &&& forall|i: int|
                0 <= i < answers.len() - 1 ==> (#[trigger] answers[i] matches ReceivedView::Bytes(
                    bytes,
                ) && bytes.len() > 0)
        }),
{
    law_readable_keeps_what_came_in(channel, answers);
    lemma_readable_answers(channel.readable_started(), answers);
}

proof fn lemma_readable_answers(state: (ChannelView, ReadableStep), answers: Seq<ReceivedView>)
    requires
        state.0.wf(),
        state.1 is Read ==> {
            &&& state.1->limit == state.0.front.space()
            &&& state.0.front.space() > 0
        },
        readable_answers(state, answers),
        answers.len() > 0,
    ensures
        ({
            let (after, step) = readable_session(state, answers);
            &&& match answers.last() {
                ReceivedView::Bytes(bytes) => if bytes.len() == 0 {
                    step == ReadableStep::Done(Err(ChannelError::NoByteToRead))
                } else if after.front.space() == 0 {
                    step is Done && step->Done_0 is Ok
                } else {
                    step is Read
                },
                ReceivedView::WouldBlock(_) => step is Done && step->Done_0 is Ok,
                ReceivedView::Failed(error) => step == ReadableStep::Done(
                    Err(ChannelError::Read(error)),
                ),
            }
            &&& forall|i: int|
                0 <= i < answers.len() - 1 ==> (#[trigger] answers[i] matches ReceivedView::Bytes(
                    bytes,
                ) && bytes.len() > 0)
        }),
    decreases answers.len(),
{
    let next = state.0.readable_received(state.1->count as nat, answers.first());
    let rest = answers.drop_first();
    assert(readable_answers(next, rest));
    if rest.len() > 0 {
        assert(next.1 is Read);
        lemma_readable_answers(next, rest);
        assert(rest.last() == answers.last());
        assert forall|i: int| 0 <= i < answers.len() - 1 implies (
        #[trigger] answers[i] matches ReceivedView::Bytes(bytes) && bytes.len() > 0) by {
            if i > 0 {
                assert(answers[i] == rest[i - 1]);
            }
        }
    } else {
        assert(readable_session(next, rest) == next);
    }
}

/// Law: emptying the back buffer ends with an error exactly where the last answer of the socket was
/// that it took no byte or a failure, and with that error. It ends well where the socket would
/// block or all is gone, with the number of bytes that went out, and goes on otherwise. Before the
/// last answer, the socket took bytes each time.
pub proof fn law_writable_ends_as_the_socket_answered(channel: ChannelView, answers: Seq<Sent>)
    requires
        channel.wf(),
        writable_answers(channel.writable_started(), answers),
        answers.len() > 0,
    ensures
        ({
            let (after, step) = writable_session(channel.writable_started(), answers);
            &&& match answers.last() {
                Sent::Count(taken) => if taken == 0 {
                    step == WritableStep::Done(Err(ChannelError::NoByteWritten))
                } else if count_of(answers) == channel.back.data.len() {
                    step is Done && step->Done_0 is Ok
                } else {
                    step is Write
                },
                Sent::WouldBlock(_) => step is Done && step->Done_0 is Ok,
                Sent::Failed(error) => step == WritableStep::Done(Err(ChannelError::Read(error))),
            }
            &&& step matches WritableStep::Done(Ok(count)) ==> count == count_of(answers)
            &&& forall|i: int|
                0 <= i < answers.len() - 1 ==> (#[trigger] answers[i] matches Sent::Count(taken)
                    && taken > 0)
        }),
{
    law_writable_drops_what_went_out(channel, answers);
    lemma_writable_answers(channel.writable_started(), answers);
}

proof fn lemma_writable_answers(state: (ChannelView, WritableStep), answers: Seq<Sent>)
    requires
        state.0.wf(),
        writable_answers(state, answers),
        answers.len() > 0,
    ensures
        ({
            let (after, step) = writable_session(state, answers);
            &&& match answers.last() {
                Sent::Count(taken) => if taken == 0 {
                    step == WritableStep::Done(Err(ChannelError::NoByteWritten))
                } else if after.back.data.len() == 0 {
                    step is Done && step->Done_0 is Ok
                } else {
                    step is Write
                },
                Sent::WouldBlock(_) => step is Done && step->Done_0 is Ok,
                Sent::Failed(error) => step == WritableStep::Done(Err(ChannelError::Read(error))),
            }
            &&& forall|i: int|
                0 <= i < answers.len() - 1 ==> (#[trigger] answers[i] matches Sent::Count(taken)
                    && taken > 0)
        }),
    decreases answers.len(),
{
    let next = state.0.writable_sent(state.1->count as nat, answers.first());
    let rest = answers.drop_first();
    assert(writable_answers(next, rest));
    if rest.len() > 0 {
        assert(next.1 is Write);
        lemma_writable_answers(next, rest);
        assert(rest.last() == answers.last());
        assert forall|i: int| 0 <= i < answers.len() - 1 implies (
        #[trigger] answers[i] matches Sent::Count(taken) && taken > 0) by {
            if i > 0 {
                assert(answers[i] == rest[i - 1]);
            }
        }
    } else {
        assert(writable_session(next, rest) == next);
    }
}

/// Law: a blocking write whose socket takes bytes each time never ends with an error: it goes on
/// while data is left, and ends well as soon as all is gone.
pub proof fn law_blocking_write_succeeds(channel: ChannelView, message: Seq<u8>, answers: Seq<Sent>)
    requires
        channel.wf(),
        channel.blocking,
        ({
            let needed = channel.back.data.len() + message.len() + 1;
            needed <= channel.back.capacity || needed <= channel.max_buffer_size
        }),
        flush_answers(channel.message_written(message), answers),
        forall|i: int|
            0 <= i < answers.len() ==> (#[trigger] answers[i] matches Sent::Count(taken) && taken
                > 0),
    ensures
        ({
            let (after, step) = flush_session(channel.message_written(message), answers);
            let all = channel.back.data.len() + message.len() + 1;
            &&& count_of(answers) <= all
            &&& step == if count_of(answers) == all {
                FlushStep::Done(Ok(()))
            } else {
                FlushStep::Write
            }
            &&& after.back.data.len() == all - count_of(answers)
        }),
{
    let state = channel.message_written(message);
    law_message_is_accepted_where_it_fits(channel, message);
    law_flush_drops_what_went_out(state, answers);
    lemma_flush_answers(state, answers);
}

proof fn lemma_flush_answers(state: (ChannelView, FlushStep), answers: Seq<Sent>)
    requires
        state.0.wf(),
        state.1 == if state.0.back.data.len() == 0 {
            FlushStep::Done(Ok(()))
        } else {
            FlushStep::Write
        },
        flush_answers(state, answers),
        forall|i: int|
            0 <= i < answers.len() ==> (#[trigger] answers[i] matches Sent::Count(taken) && taken
                > 0),
    ensures
        ({
            let (after, step) = flush_session(state, answers);
            step == if after.back.data.len() == 0 {
                FlushStep::Done(Ok(()))
            } else {
                FlushStep::Write
            }
        }),
    decreases answers.len(),
{
    if answers.len() > 0 {
        let next = state.0.flush_sent(answers.first());
        let rest = answers.drop_first();
        assert(flush_answers(next, rest));
        assert(answers[0] == answers.first());
        assert forall|i: int| 0 <= i < rest.len() implies (#[trigger] rest[i] matches Sent::Count(
            taken,
        ) && taken > 0) by {
            assert(rest[i] == answers[i + 1]);
        }
        lemma_flush_answers(next, rest);
    }
}

/// Law: a blocking write drops exactly what the socket took, from the front. It ends well only
/// where all is gone, and is over after at most as many answers as there are bytes.
pub proof fn law_flush_drops_what_went_out(state: (ChannelView, FlushStep), answers: Seq<Sent>)
    requires
        state.0.wf(),
        state.1 is Write ==> state.0.back.data.len() > 0,
        flush_answers(state, answers),
    ensures
        ({
            let (after, step) = flush_session(state, answers);
            let went = count_of(answers);
            &&& after.wf()
            &&& went <= state.0.back.data.len()
            &&& after.back.data == state.0.back.data.skip(went as int)
            &&& after == ChannelView { back: after.back, ..state.0 }
            &&& after.back.capacity == state.0.back.capacity
            &&& step is Write ==> after.back.data.len() > 0
            &&& step == FlushStep::Done(Ok(())) && answers.len() > 0 ==> after.back.data.len() == 0
            &&& answers.len() <= state.0.back.data.len()
        }),
    decreases answers.len(),
{
    if answers.len() > 0 {
        let next = state.0.flush_sent(answers.first());
        assert(flush_answers(next, answers.drop_first()));
        law_flush_drops_what_went_out(next, answers.drop_first());
        let after = flush_session(state, answers).0;
        assert(after.back.data =~= state.0.back.data.skip(count_of(answers) as int));
    } else {
        assert(state.0.back.data.skip(0) =~= state.0.back.data);
    }
}

/// Law: a blocking write that succeeds has put on the socket all that waited, and then the
/// message with its end; nothing is left to flush.
pub proof fn law_blocking_write_is_on_the_socket(
    channel: ChannelView,
    message: Seq<u8>,
    answers: Seq<Sent>,
)
    requires
        channel.wf(),
        channel.blocking,
        flush_answers(channel.message_written(message), answers),
        flush_session(channel.message_written(message), answers).1 == FlushStep::Done(Ok(())),
    ensures
        ({
            let (written, _) = channel.message_written(message);
            let (after, _) = flush_session(channel.message_written(message), answers);
            &&& !channel.refuses(message)
            &&& written.back.data == channel.back.data + frame(message)
            &&& count_of(answers) == written.back.data.len()
            &&& after.back.data.len() == 0
        }),
{
    if !channel.refuses(message) {
        law_accepted_message_is_appended(channel, message);
        law_flush_drops_what_went_out(channel.message_written(message), answers);
    }
}

/// Law: while a message is waited for, every byte that comes in is kept, in order, behind
/// what was there, and the front buffer never outgrows the larger of its capacity and the
/// maximum.
pub proof fn law_waiting_keeps_what_came_in(channel: ChannelView, answers: Seq<ReceivedView>)
    requires
        channel.wf(),
        wait_answers(channel, answers),
    ensures
        ({
            let after = waited(channel, answers);
            &&& after.wf()
            &&& after.front.data == channel.front.data + bytes_of(answers)
            &&& channel.front.capacity <= after.front.capacity
            &&& after.front.capacity <= channel.front.capacity || after.front.capacity
                <= channel.max_buffer_size
            &&& after == ChannelView { front: after.front, ..channel }
        }),
    decreases answers.len(),
{
    if answers.len() > 0 {
        let next = channel.front_extended().message_received(answers.first()).0;
        law_waiting_keeps_what_came_in(next, answers.drop_first());
        let after = waited(channel, answers);
        assert(after.front.data =~= channel.front.data + bytes_of(answers));
    } else {
        assert(channel.front.data + bytes_of(answers) =~= channel.front.data);
    }
}

/// Law: an accepted message stands, with its end, behind what waits already. The back buffer
/// never outgrows the larger of its capacity and the maximum, and what came in stays.
pub proof fn law_accepted_message_is_appended(channel: ChannelView, message: Seq<u8>)
    requires
        channel.wf(),
        !channel.refuses(message),
    ensures
        ({
            let after = channel.message_written(message).0;
            &&& after.wf()
            &&& after.back.data == channel.back.data + frame(message)
            &&& channel.back.capacity <= after.back.capacity
            &&& after.back.capacity <= channel.back.capacity || after.back.capacity
                <= channel.max_buffer_size
            &&& after.front == channel.front
            &&& after.max_buffer_size == channel.max_buffer_size
            &&& after.readiness == channel.readiness
            &&& after.interest == if channel.blocking {
                channel.interest
            } else {
                channel.interest.either(Ready::writable())
            }
            &&& after.blocking == channel.blocking
        }),
{
    let room = channel.back_with_room(message.len() + 1);
    assert(room.wf() && room.space() >= message.len() + 1);
    assert(room.filled(message).wf() && room.filled(message).space() >= 1);
    let after = channel.message_written(message).0;
    assert(after.back.data =~= channel.back.data + frame(message));
}

/// Law: a refused message leaves the channel with the data, the capacity and the flags that it
/// had, and reports that capacity.
pub proof fn law_refused_message_changes_nothing(channel: ChannelView, message: Seq<u8>)
    requires
        channel.wf(),
        channel.refuses(message),
    ensures
        ({
            let (after, step) = channel.message_written(message);
            &&& after == ChannelView { back: BufferView { gap: 0, ..channel.back }, ..channel }
            &&& step == FlushStep::Done(
                Err(ChannelError::MessageTooLarge(channel.back.capacity as usize)),
            )
        }),
{
}

/// Law: where no message is there and the front buffer is full, it grows as long as it may, so
/// that there is space for more.
pub proof fn law_full_front_buffer_grows(channel: ChannelView)
    requires
        channel.wf(),
        channel.front.space() == 0,
        channel.front.capacity < channel.max_buffer_size,
    ensures
        channel.nothing_read().front.space() > 0,
        channel.nothing_read().front.data == channel.front.data,
        channel.nothing_read().front.capacity <= channel.max_buffer_size,
        channel.nothing_read().ready_for(Ready::readable()) <==> channel.readiness.has(
            Ready::readable(),
        ),
{
    let interest = channel.interest.0;
    let readiness = channel.readiness.0;
    assert((((interest | 1) & readiness) & 1 == 1) <==> (readiness & 1 == 1)) by (bit_vector);
}

/// Law: a message that was written to a nonblocking channel is flushed by a run, as soon as the
/// socket is ready: the run asks for the data to be written, after it filled the front buffer.
pub proof fn law_run_flushes_what_was_written(
    channel: ChannelView,
    message: Seq<u8>,
    events: Ready,
)
    requires
        channel.wf(),
        !channel.blocking,
        !channel.refuses(message),
        events.has(Ready::writable()),
    ensures
        ({
            let written = channel.message_written(message).0;
            let ready = ChannelView { readiness: written.readiness.either(events), ..written };
            let (after, step) = ready.run_started();
            &&& after.back == written.back
            &&& match step {
                RunStep::Read { then_write, .. } => then_write,
                RunStep::Write { count } => count == 0,
                RunStep::Done(_) => false,
            }
        }),
{
    law_accepted_message_is_appended(channel, message);
    let interest = channel.interest.0;
    let readiness = channel.readiness.0;
    let flags = events.0;
    assert(flags & 2 == 2 ==> ((interest | 2) & (readiness | flags)) & 2 == 2) by (bit_vector);
    assert(flags & 2 == 2 ==> (((interest | 2) & !1u16) & (readiness | flags)) & 2 == 2)
        by (bit_vector);
}

/// An answer of the socket during a run.
pub enum RunAnswer {
    Received(ReceivedView),
    Sent(Sent),
}

/// Where a run stands once the socket gave this answer.
pub open spec fn run_answered(state: (ChannelView, RunStep), answer: RunAnswer) -> (
    ChannelView,
    RunStep,
) {
    match (state.1, answer) {
        (RunStep::Read { count, then_write, .. }, RunAnswer::Received(received)) =>
            state.0.run_received(then_write, count as nat, received),
        (RunStep::Write { count }, RunAnswer::Sent(sent)) => state.0.run_sent(count as nat, sent),
        _ => state,
    }
}

/// Where a run stands after these answers.
pub open spec fn run_session(state: (ChannelView, RunStep), answers: Seq<RunAnswer>) -> (
    ChannelView,
    RunStep,
)
    decreases answers.len(),
{
    if answers.len() == 0 {
        state
    } else {
        run_session(run_answered(state, answers.first()), answers.drop_first())
    }
}

/// Each of these answers was asked for, brings no more than was asked for, and takes no more
/// than there is.
pub open spec fn run_answers(state: (ChannelView, RunStep), answers: Seq<RunAnswer>) -> bool
    decreases answers.len(),
{
    answers.len() == 0 || {
        &&& match (state.1, answers.first()) {
            (RunStep::Read { limit, .. }, RunAnswer::Received(received)) => received.within(
                limit as int,
            ),
            (RunStep::Write { .. }, RunAnswer::Sent(sent)) => sent.within(
                state.0.back.data.len() as int,
            ),
            _ => false,
        }
        &&& run_answers(run_answered(state, answers.first()), answers.drop_first())
    }
}

/// All bytes that came in by these answers.
pub open spec fn came_in(answers: Seq<RunAnswer>) -> Seq<u8>
    decreases answers.len(),
{
    if answers.len() == 0 {
        seq![]
    } else {
        (match answers.first() {
            RunAnswer::Received(ReceivedView::Bytes(bytes)) => bytes,
            _ => seq![],
        }) + came_in(answers.drop_first())
    }
}

/// How many bytes went out by these answers.
pub open spec fn went_out(answers: Seq<RunAnswer>) -> nat
    decreases answers.len(),
{
    if answers.len() == 0 {
        0
    } else {
        (match answers.first() {
            RunAnswer::Sent(Sent::Count(taken)) => taken as nat,
            _ => 0,
        }) + went_out(answers.drop_first())
    }
}

/// What a run asks for is there, a run that writes later on will not be refused, and what is
/// over the channel is not ready for.
spec fn run_stands(state: (ChannelView, RunStep)) -> bool {
    &&& state.0.wf()
    &&& match state.1 {
        RunStep::Read { count, limit, then_write } => {
            &&& limit == state.0.front.space()
            &&& limit > 0
            &&& count <= state.0.front.data.len()
            &&& then_write == state.0.ready_for(Ready::writable())
        },
        RunStep::Write { count } => {
            &&& state.0.back.data.len() > 0
            &&& count + state.0.back.data.len() <= usize::MAX
            &&& !state.0.ready_for(Ready::readable())
        },
        RunStep::Done(result) => {
            &&& result != Err::<(), ChannelError>(ChannelError::Connection(None))
            &&& !state.0.ready_for(Ready::readable())
            &&& !state.0.ready_for(Ready::writable())
        },
    }
}

/// How many more answers a run can ask for.
spec fn answers_left(state: (ChannelView, RunStep)) -> int {
    let room = state.0.front.capacity - state.0.front.data.len();
    match state.1 {
        RunStep::Read { .. } => room + 1 + state.0.back.data.len(),
        RunStep::Write { .. } => state.0.back.data.len() as int,
        RunStep::Done(_) => 0,
    }
}

proof fn lemma_run_answered(state: (ChannelView, RunStep), answer: RunAnswer)
    requires
        run_stands(state),
        run_answers(state, seq![answer]),
    ensures
        ({
            let next = run_answered(state, answer);
            &&& run_stands(next)
            &&& answers_left(next) < answers_left(state)
            &&& next.0.front.capacity == state.0.front.capacity
            &&& next.0.back.capacity == state.0.back.capacity
            &&& next.0.max_buffer_size == state.0.max_buffer_size
            &&& next.0.blocking == state.0.blocking
            &&& next.0.front.data == match answer {
                RunAnswer::Received(ReceivedView::Bytes(bytes)) => state.0.front.data + bytes,
                _ => state.0.front.data,
            }
            &&& match answer {
                RunAnswer::Sent(Sent::Count(taken)) => {
                    &&& taken <= state.0.back.data.len()
                    &&& next.0.back.data == state.0.back.data.skip(taken as int)
                },
                _ => next.0.back.data == state.0.back.data,
            }
        }),
{
    let next = run_answered(state, answer);
    lemma_cleared_flags(state.0.interest, state.0.readiness);
    lemma_cleared_flags(state.0.interest.without(Ready::readable()), state.0.readiness);
    lemma_cleared_flags(state.0.interest, state.0.readiness.without(Ready::readable()));
    lemma_no_interest(next.0.readiness);
    match answer {
        RunAnswer::Received(ReceivedView::Bytes(bytes)) => {
            assert(next.0.front.data =~= state.0.front.data + bytes);
        },
        RunAnswer::Sent(Sent::Count(taken)) => {
            assert(next.0.back.data =~= state.0.back.data.skip(taken as int));
        },
        _ => {},
    }
}

proof fn lemma_run_session(state: (ChannelView, RunStep), answers: Seq<RunAnswer>)
    requires
        run_stands(state),
        run_answers(state, answers),
    ensures
        ({
            let (after, step) = run_session(state, answers);
            &&& run_stands((after, step))
            &&& after.front.data == state.0.front.data + came_in(answers)
            &&& after.front.capacity == state.0.front.capacity
            &&& went_out(answers) <= state.0.back.data.len()
            &&& after.back.data == state.0.back.data.skip(went_out(answers) as int)
            &&& after.back.capacity == state.0.back.capacity
            &&& after.max_buffer_size == state.0.max_buffer_size
            &&& after.blocking == state.0.blocking
            &&& answers.len() <= answers_left(state)
        }),
    decreases answers.len(),
{
    if answers.len() > 0 {
        let answer = answers.first();
        let next = run_answered(state, answer);
        assert(run_answers(state, seq![answer])) by {
            assert(seq![answer].drop_first() =~= seq![]);
            assert(run_answers(next, seq![answer].drop_first()));
        }
        lemma_run_answered(state, answer);
        lemma_run_session(next, answers.drop_first());
        let after = run_session(state, answers).0;
        assert(after.front.data =~= state.0.front.data + came_in(answers));
        assert(after.back.data =~= state.0.back.data.skip(went_out(answers) as int));
    } else {
        assert(state.0.front.data + came_in(answers) =~= state.0.front.data);
        assert(state.0.back.data.skip(0) =~= state.0.back.data);
    }
}

proof fn lemma_run_started(channel: ChannelView)
    requires
        channel.wf(),
    ensures
        ({
            let state = channel.run_started();
            &&& run_stands(state)
            &&& state.0 == ChannelView { interest: state.0.interest, ..channel }
        }),
{
    lemma_cleared_flags(channel.interest, channel.readiness);
    lemma_cleared_flags(channel.interest.without(Ready::readable()), channel.readiness);
}

/// Law: over all answers of the socket, a run keeps every byte that came in, in order, behind
/// what was there, drops exactly what went out, from the front, and is never refused: it only
/// does what the channel is ready for. It comes to an end, and of the rest of the channel only
/// the flags change.
pub proof fn law_run_reads_and_writes(channel: ChannelView, answers: Seq<RunAnswer>)
    requires
        channel.wf(),
        run_answers(channel.run_started(), answers),
    ensures
        ({
            let (after, step) = run_session(channel.run_started(), answers);
            &&& after.wf()
            &&& after.front.data == channel.front.data + came_in(answers)
            &&& after.front.capacity == channel.front.capacity
            &&& went_out(answers) <= channel.back.data.len()
            &&& after.back.data == channel.back.data.skip(went_out(answers) as int)
            &&& after.back.capacity == channel.back.capacity
            &&& after.max_buffer_size == channel.max_buffer_size
            &&& after.blocking == channel.blocking
            &&& step != RunStep::Done(Err(ChannelError::Connection(None)))
            &&& answers.len() <= channel.front.capacity - channel.front.data.len() + 1
                + channel.back.data.len()
        }),
{
    lemma_run_started(channel);
    lemma_run_session(channel.run_started(), answers);
}

/// Law: once a run is over, well or not, the channel is ready for nothing: another run does
/// nothing.
pub proof fn law_finished_run_leaves_nothing_to_do(channel: ChannelView, answers: Seq<RunAnswer>)
    requires
        channel.wf(),
        run_answers(channel.run_started(), answers),
        run_session(channel.run_started(), answers).1 is Done,
    ensures
        ({
            let after = run_session(channel.run_started(), answers).0;
            &&& !after.ready_for(Ready::readable())
            &&& !after.ready_for(Ready::writable())
            &&& after.run_started() == (after, RunStep::Done(Ok(())))
        }),
{
    lemma_run_started(channel);
    lemma_run_session(channel.run_started(), answers);
}

/// The error that an answer of the socket stands for, during a run.
pub open spec fn failure_of(answer: RunAnswer) -> Option<ChannelError> {
    match answer {
        RunAnswer::Received(ReceivedView::Bytes(bytes)) => if bytes.len() == 0 {
            Some(ChannelError::NoByteToRead)
        } else {
            None
        },
        RunAnswer::Received(ReceivedView::WouldBlock(_)) => None,
        RunAnswer::Received(ReceivedView::Failed(error)) => Some(ChannelError::Read(error)),
        RunAnswer::Sent(Sent::Count(taken)) => if taken == 0 {
            Some(ChannelError::NoByteWritten)
        } else {
            None
        },
        RunAnswer::Sent(Sent::WouldBlock(_)) => None,
        RunAnswer::Sent(Sent::Failed(error)) => Some(ChannelError::Read(error)),
    }
}

/// Law: a run that is over gives no error exactly where no answer of the socket was a failure;
/// otherwise the failure was the last answer, and its error is the result. A run that was not
/// answered at all has no error.
pub proof fn law_run_ends_as_the_socket_answered(channel: ChannelView, answers: Seq<RunAnswer>)
    requires
        channel.wf(),
        run_answers(channel.run_started(), answers),
    ensures
        ({
            let step = run_session(channel.run_started(), answers).1;
            &&& forall|i: int|
                0 <= i < answers.len() - 1 ==> failure_of(#[trigger] answers[i]) is None
            &&& answers.len() > 0 && failure_of(answers.last()) is Some ==> step == RunStep::Done(
                Err(failure_of(answers.last())->0),
            )
            &&& answers.len() == 0 || failure_of(answers.last()) is None ==> (step is Done ==> step
                == RunStep::Done(Ok(())))
        }),
{
    lemma_run_started(channel);
    lemma_run_answers(channel.run_started(), answers);
}

proof fn lemma_run_answers(state: (ChannelView, RunStep), answers: Seq<RunAnswer>)
    requires
        run_stands(state),
        run_answers(state, answers),
        state.1 is Done ==> state.1 == RunStep::Done(Ok(())),
    ensures
        ({
            let step = run_session(state, answers).1;
            &&& forall|i: int|
                0 <= i < answers.len() - 1 ==> failure_of(#[trigger] answers[i]) is None
            &&& answers.len() > 0 && failure_of(answers.last()) is Some ==> step == RunStep::Done(
                Err(failure_of(answers.last())->0),
            )
            &&& answers.len() == 0 || failure_of(answers.last()) is None ==> (step is Done ==> step
                == RunStep::Done(Ok(())))
        }),
    decreases answers.len(),
{
    if answers.len() > 0 {
        let answer = answers.first();
        let next = run_answered(state, answer);
        let rest = answers.drop_first();
        assert(run_answers(next, rest));
        assert(run_answers(state, seq![answer])) by {
            assert(seq![answer].drop_first() =~= seq![]);
            assert(run_answers(next, seq![answer].drop_first()));
        }
        lemma_run_answered(state, answer);
        assert(failure_of(answer) is Some ==> next.1 == RunStep::Done(Err(failure_of(answer)->0)));
        assert(failure_of(answer) is None && next.1 is Done ==> next.1 == RunStep::Done(Ok(())));
        if rest.len() > 0 {
            assert(next.1 !is Done);
            lemma_run_answers(next, rest);
            assert(rest.last() == answers.last());
            assert forall|i: int| 0 <= i < answers.len() - 1 implies failure_of(
                #[trigger] answers[i],
            ) is None by {
                if i > 0 {
                    assert(answers[i] == rest[i - 1]);
                }
            }
        } else {
            assert(run_session(next, rest) == next);
        }
    }
}

/// Law: where the channel is ready for nothing, a run does nothing.
pub proof fn law_idle_run_does_nothing(channel: ChannelView)
    requires
        !channel.ready_for(Ready::readable()),
        !channel.ready_for(Ready::writable()),
    ensures
        channel.run_started() == (channel, RunStep::Done(Ok(()))),
{
}

/// Law: once the peer is gone or the socket failed, the channel is ready for nothing, whatever
/// events come in, and each operation is refused.
pub proof fn law_broken_channel_is_refused(
    channel: ChannelView,
    count: nat,
    received: ReceivedView,
    sent: Sent,
    events: Ready,
)
    ensures
        ({
            let (after, step) = channel.readable_received(count, received);
            step is Done && step->Done_0 is Err ==> refuses_all(after, events)
        }),
        ({
            let (after, step) = channel.writable_sent(count, sent);
            step is Done && step->Done_0 is Err ==> refuses_all(after, events)
        }),
{
    assert forall|x: u16| #[trigger] (0 & x) & 1 != 1 && (0 & x) & 2 != 2 by {
        assert((0 & x) & 1 != 1 && (0 & x) & 2 != 2) by (bit_vector);
    }
}

/// Neither reading nor writing is possible after `events`.
pub open spec fn refuses_all(channel: ChannelView, events: Ready) -> bool {
    let ready = ChannelView { readiness: channel.readiness.either(events), ..channel };
    &&& ready.readable_started() == (
        ready,
        ReadableStep::Done(Err(ChannelError::Connection(None))),
    )
    &&& ready.writable_started() == (
        ready,
        WritableStep::Done(Err(ChannelError::Connection(None))),
    )
}

/// Law: a socket that would block is not asked again until it is ready: the operation is
/// refused until an event says so.
pub proof fn law_would_block_waits_for_an_event(
    channel: ChannelView,
    count: nat,
    error: std::io::Error,
)
    ensures
        !channel.readable_received(count, ReceivedView::WouldBlock(error)).0.ready_for(
            Ready::readable(),
        ),
        !channel.writable_sent(count, Sent::WouldBlock(error)).0.ready_for(Ready::writable()),
{
    lemma_cleared_flags(channel.interest, channel.readiness);
}

} // verus!
