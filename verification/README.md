# h1codec

The decoding half of an HTTP/1 server codec, verified with Verus, and the errors
of a WebSocket client.

- `src/h1/decoder.rs` takes requests off the front of a buffer and chooses how
  their bodies are decoded; `src/h1/fields.rs` says what the headers mean, and
  `src/h1/head.rs` where they stand.
- `src/h1/payload.rs` decodes bodies with a length, bodies in the chunked coding
  and bodies that last until the connection closes; `src/h1/chunked.rs` is the
  state machine of the chunked coding.
- `src/h1/laws.rs` and `src/h1/request_laws.rs` prove what holds of whole bodies
  and messages: that a body is the same in whatever pieces it arrives, that
  decoding undoes encoding, that nothing behind a message is touched.
- `src/request.rs`, `src/error.rs` and `src/ws/` hold the types that callers see.
- `src/external/` gives contracts to the functions of `bytes`, `http`,
  `httparse`, `actix-net` and std that the library calls. They are trusted.
- `app/` fits the decoders to `tokio-codec` and the errors to `failure`.

Sizes in the chunked coding are 64 bits wide and wrap around.
