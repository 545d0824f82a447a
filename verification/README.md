# voicemcu

A self-hosted group voice chat: a server that mixes one stream per listener, and
a terminal client. The rules of both are a library written in Verus, so what each
function does is stated in its contract and proved.

## Layout

- `src/` is the library.
  - `common/`: wire format, audio headers, signaling messages, jitter buffer,
    codec retries, text and fingerprints.
  - `server/`: configuration, rate limits, rooms, sessions, moderation, mix
    routing, certificates.
  - `client/`: configuration, certificate pinning, audio streams, the terminal's
    state and what it shows.
- `tests/` runs the library.
- `app/` is the program around it: sockets, terminal, audio devices, the codec
  and the sample arithmetic.

## Conventions

Each type has a view, and contracts speak of views. A handler takes a state and an
event and returns what has to be sent; it never sends. Time is an argument,
counted in nanoseconds. Where the library calls another crate, the call stands in
a small function whose doc comment says what is believed of it.
