# otk

The core of an open timekeeping system, verified with Verus: the event model and
its CBOR form, the wire protocol and its frames, the server side of ingest, and
the event log.

- `src/model`, `src/protocol`: events, envelopes and messages. `src/codec.rs`,
  `src/schema.rs`, `src/wire.rs` and `src/cbor.rs` give them their CBOR form.
- `src/frame`: stream frames with a length in front, and serial frames with COBS
  and a CRC.
- `src/ingest`: the handshake, the messages after it, sessions over a stream of
  bytes, how a Unix socket is bound, and TLS.
- `src/log`: the segment log, as a machine that is told what came of reading and
  writing files, its subscriptions, and a log in memory. `src/log/disk.rs` states
  what the log keeps, across closing segments, eviction and reopening, and
  `src/log/progress.rs` follows whole appends, with the files, to their end.
  `src/log/agreement.rs` states that both kinds of log give the same answers.
- `src/contracts`: what detector adapters and timebases offer.
- `src/fixtures`: events, envelopes and streams to try things out with.
- `src/devcerts.rs`, `src/devcerts`: a tool that issues certificates for trying
  out TLS.
- `app`: the program around it, with files, sockets and the clock.

No function of the library does input or output. What the library takes on trust
from outside crates stands in functions marked `external_body` and in
`assume_specification` items; each says which outside function it is about, and
what it claims of it.
