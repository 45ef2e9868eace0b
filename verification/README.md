# Screen streaming

The rules of a screen streaming application, verified with Verus: a host shares
its screen with guests who know its pairing code, over WebRTC connections that
are set up through a small signaling relay.

`src/` is the verified library.

- `signaling_server`, `signaling_client`, `signaling_laws`: the relay's rooms,
  the messages on either side of it, and what holds of every exchange.
- `session`, `peer`, `network`: the handshake, what both peers agree on, and the
  addresses they use.
- `quality`, `pipeline`, `hw_encoding`, `encoding`, `capture`: from a captured
  frame to an encoded packet.
- `video_preview`, `audio`: from a received packet to something to see or hear.
- `commands`: what the user interface asks for.
- `json`, `text`, `text_order`: what the others are built on.

`tests/` runs the library on concrete values. `app/` is the application around
it: sockets, devices, codecs and the user interface.
