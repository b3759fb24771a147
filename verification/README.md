# weever-streaming

Signalling and bookkeeping of a horizontally scaled WebRTC SFU: publishers
push RTP into NATS, subscribers pull it back out, and the instances share
tokens, peer lists and track tables through Redis.

- `src/` is the verified library: reading SDP offers (`sdp`), planning the
  tracks a subscriber adds (`subscriber`), the control-channel protocol and the
  renegotiation guard (`signal`), peer connection state reactions (`peer`),
  request checks of the HTTP API (`web`), the keys and fields of the shared
  store (`store`), the cross-instance command codec (`command`), the local
  table of subscribers to notify (`registry`) and the TLS identity (`tls`).
- `tests/` runs the library on concrete values.
- `app/` is the service around it: command line, HTTP servers, Redis and NATS
  connections, and the WebRTC peer connections.
