# three_ds_http

An HTTP client surface in the style of `reqwest`, built on `http` types, with
the network work done by a blocking transport (minreq) and WebSockets read
through tungstenite.

- `src/` is the verified library (Verus): URLs, methods, status codes,
  headers and header maps, requests and their builder, the decision of what
  to hand the transport and how to turn what comes back into a response,
  empty multipart forms, and what a WebSocket read means for its message
  stream.
- `app/` performs the exchanges: it runs minreq on tokio's blocking pool and
  wraps a tungstenite WebSocket as a futures `Stream` and `Sink`.
- `tests/` exercises the library on concrete values.
