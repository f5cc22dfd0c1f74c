//! Message channels over a unix socket.
//!
//! A [`channel::Channel`] frames messages with a terminating zero byte, buffers what it
//! received and what it has to send, and decides when its socket is to be read from or
//! written to. The socket itself is driven by the caller: each operation that needs it
//! hands back a step that says what to do next, and takes what the socket answered.
//!
//! [`model`] holds the state of a channel as a mathematical value and how each operation
//! changes it, [`outcomes`] what each operation gives for each input, [`sessions`] what
//! holds of one channel over all answers of its socket, and [`delivery`] what holds between a channel that sends and one that receives.

pub mod buffer;
pub mod channel;
pub mod delivery;
pub mod error;
pub mod model;
pub mod outcomes;
pub mod ready;
pub mod sessions;
pub mod step;
