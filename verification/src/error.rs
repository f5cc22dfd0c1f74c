//! What can go wrong on a channel.

use vstd::prelude::*;

verus! {

/// `std::io::Error`, which the channel carries from the socket to its caller unread.
#[verifier::external_type_specification]
#[verifier::external_body]
pub struct ExIoError(std::io::Error);

/// `serde_json::Error`, which the channel carries from the decoder to its caller unread.
#[verifier::external_type_specification]
#[verifier::external_body]
pub struct ExJsonError(serde_json::Error);

/// The errors of a channel.
#[derive(Debug)]
pub enum ChannelError {
    /// The socket failed.
    Read(std::io::Error),
    /// The socket took no byte.
    NoByteWritten,
    /// The socket has no byte left: the peer is gone.
    NoByteToRead,
    /// The message does not fit in the back buffer, which has this capacity.
    MessageTooLarge(usize),
    /// The back buffer could not be written to.
    Write(std::io::Error),
    /// The front buffer is full and cannot grow.
    BufferFull,
    /// This many nanoseconds went by without a message.
    TimeoutReached(u128),
    /// There is no complete message in the front buffer.
    NothingRead,
    /// The message is not valid UTF-8.
    InvalidCharSet(String),
    /// The message could not be decoded.
    Serde(serde_json::Error),
    /// The socket `fd` could not be switched between blocking and nonblocking.
    BlockingStatus { fd: i32, error: String },
    /// The channel is not connected, or not ready for what was asked of it.
    Connection(Option<std::io::Error>),
}

} // verus!
