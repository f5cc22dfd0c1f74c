//! What a channel asks of its socket, and what the socket answers.

use crate::error::ChannelError;
use vstd::prelude::*;

verus! {

/// The answer of a socket that was read from.
#[derive(Debug)]
pub enum Received {
    /// These bytes came in. None at all means that the peer is gone.
    Bytes(Vec<u8>),
    /// Nothing is there yet.
    WouldBlock(std::io::Error),
    /// The socket failed.
    Failed(std::io::Error),
}

/// A [`Received`], with the bytes as a sequence.
pub enum ReceivedView {
    Bytes(Seq<u8>),
    WouldBlock(std::io::Error),
    Failed(std::io::Error),
}

impl View for Received {
    type V = ReceivedView;

    open spec fn view(&self) -> ReceivedView {
        match *self {
            Received::Bytes(bytes) => ReceivedView::Bytes(bytes@),
            Received::WouldBlock(error) => ReceivedView::WouldBlock(error),
            Received::Failed(error) => ReceivedView::Failed(error),
        }
    }
}

impl ReceivedView {
    /// No more than `limit` bytes came in.
    pub open spec fn within(self, limit: int) -> bool {
        self matches ReceivedView::Bytes(bytes) ==> bytes.len() <= limit
    }
}

/// The answer of a socket that was written to.
#[derive(Debug)]
pub enum Sent {
    /// The socket took this many bytes. None at all means that the peer is gone.
    Count(usize),
    /// The socket takes nothing for now.
    WouldBlock(std::io::Error),
    /// The socket failed.
    Failed(std::io::Error),
}

impl Sent {
    /// No more than `limit` bytes were taken.
    pub open spec fn within(self, limit: int) -> bool {
        self matches Sent::Count(count) ==> count <= limit
    }
}

/// An attempt to switch a socket between blocking and nonblocking.
#[derive(Debug)]
pub struct BlockingSwitch {
    /// The file descriptor of the socket.
    pub fd: i32,
    /// How it went, with the reason where it failed.
    pub outcome: Result<(), String>,
}

/// What comes next while the front buffer is filled.
#[derive(Debug)]
pub enum ReadableStep {
    /// Read at most `limit` bytes from the socket; `count` bytes came in so far.
    Read { count: usize, limit: usize },
    Done(Result<usize, ChannelError>),
}

/// What comes next while the back buffer is emptied.
#[derive(Debug)]
pub enum WritableStep {
    /// Write the pending data to the socket; `count` bytes went out so far.
    Write { count: usize },
    Done(Result<usize, ChannelError>),
}

/// What comes next while a channel runs.
#[derive(Debug)]
pub enum RunStep {
    /// As [`ReadableStep::Read`]; whether writing follows stands in `then_write`.
    Read { count: usize, limit: usize, then_write: bool },
    /// As [`WritableStep::Write`].
    Write { count: usize },
    Done(Result<(), ChannelError>),
}

/// What comes next while a message is read.
#[derive(Debug)]
pub enum MessageStep<Rx> {
    /// Read at most `limit` bytes from the socket, then ask for the message again.
    Read { limit: usize },
    Done(Result<Rx, ChannelError>),
}

/// What comes next while a message is written.
#[derive(Debug)]
pub enum FlushStep {
    /// Write the pending data to the socket.
    Write,
    Done(Result<(), ChannelError>),
}

} // verus!
