# SoundTransfer

Plays the sound of one machine on another in the same local network: `st send` captures and sends,
`st recv` receives and plays, and `st` alone opens a window that does either.

## Layout

- `src/` is the library: what the program decides on whole numbers and text. Its contracts are proved
  by Verus; `src/lib.rs` says what is in which module. What is assumed of other crates stands in
  `src/ring.rs` (the ring buffer of `ringbuf`), `src/archive.rs` (reading archives with `zip`) and
  `src/stats.rs` (the standard library's clock).
- `app/` is the program around it: sockets, the sound card, multicast DNS, the release server, files,
  threads and the window; and all floating point: the arithmetic on samples, which the library
  carries as bit patterns, and the measuring of clock drift, whose outcome the library acts on.
- `tests/` runs the library on concrete values.

## The protocol

A datagram is a header of 24 bytes, little-endian, and interleaved samples, either signed 16-bit
integers or 32-bit floats.

| bytes | field |
|------:|-------|
| 0-3   | the magic |
| 4     | the version |
| 5     | the type: audio, hello or goodbye |
| 6     | the number of channels |
| 7     | the sample format |
| 8-11  | the sample rate |
| 12-15 | the packet number, which wraps round |
| 16-23 | the position of the first frame in the stream |

A sender says hello once a second. A receiver takes the first sender it hears, puts silence where
packets were lost, drops what comes late or twice, and starts anew after a goodbye.

## Remote control

The window answers on port 48101: `POST /start`, `POST /stop` and `GET /status`.
