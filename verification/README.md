# voice_input

The core of a push-to-talk dictation client: hold a key, speak, and the text that
a streaming speech recognition service made of it is handed to the input method.

- `src/` is the library. Verus proves every function in it against its contract.
  - `url`, `handshake`, `ws`: addresses, the opening handshake, frames and messages
    of a WebSocket connection; `ws_laws` states what holds of them together.
  - `asr`: requests and replies of the service, and one stream of audio with its
    text; `asr_laws` states what holds of whole streams.
  - `engine`: the states of the client (idle, recording, waiting).
  - `recorder`, `config`, `logger`, `upkeep`: decisions while audio is captured,
    settings, the lines of the debug log, and how long they are kept.
  - `text`, `bytes`: characters, numerals, byte order, masking.
  - `outside`: the calls into other crates, with what is taken for granted of them.
- `app/` is the C interface with everything that reads, writes and waits: sockets,
  TLS, the audio device, files. It hands the library plain values and does what
  the library decides.
- `tests/` runs the library.
