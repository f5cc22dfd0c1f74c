# command-channel

Channels that exchange messages over a unix socket, in a blocking or a nonblocking way.

A message travels as text, followed by a zero byte. A channel keeps what came in and what has
to go out in two growable buffers, bounded by a maximum size.

- `src/` is the verified library. It decides; it performs no I/O. An operation that needs the
  socket returns a step, and goes on with what the socket answered.
- `app/` drives a `mio` socket by these steps and turns messages into JSON with `serde_json`.
- `tests/` runs the library over socket pairs.

The contracts are stated over `model::ChannelView`. What holds across operations is proved in
`sessions` (over all answers of a socket) and in `delivery` (messages arrive whole, in order,
and as they were written).
