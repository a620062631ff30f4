# wsmq

Messaging over websockets. Every message travels under a 128-bit identifier
in protobuf-encoded frames: a message no longer than the connection's
bandwidth goes in one frame; a longer one is snappy-compressed and sent as a
begin frame, chunk frames of at most `bandwidth` bytes each, and an end frame.
Replies go back under the identifier of the message they answer.

`src/` is the verified library (Verus):

- `protos/wire.rs` – varints and tagged fields, with read-back laws;
- `protos/message.rs` – the frames (`Oneshot`, `Begin`, `Process`, `End`);
- `protos/status.rs` – the status codes of replies;
- `shared.rs` – what a send puts on the wire, and the table of awaited replies;
- `message.rs` – reassembly of incoming frames into messages;
- `response.rs` – received messages, replies, and waiting for a reply;
- `delivery.rs` – laws relating the sending and the receiving side;
- `ids.rs`, `compression.rs` – identifiers (uuid crate) and snappy (snap crate);
- `client.rs`, `server.rs` – the port and TLS choice for a URL, certificate files.

`app/` holds the asynchronous websocket plumbing (tokio, tungstenite, rustls)
and the user callbacks around that core.
