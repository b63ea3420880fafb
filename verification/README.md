# hab_builder

The message layer of a sharded service router, verified with Verus.

Servers register with the router for the shards they host; applications send
routed messages that the router forwards to the server holding the message's
shard. Messages travel as ZeroMQ multipart frames: the sender identities, an
empty delimiter, a protobuf header, a routing frame, an optional transaction
frame and the body.

## Layout

- `src/wire.rs` — the protobuf wire format as spec functions (varints, tags,
  length-delimited payloads, packed runs, unknown values, groups), the reading
  and writing of a message's fields, and the round-trip lemmas. The wire
  primitives themselves are the `protobuf` crate's, each behind one small
  trusted wrapper.
- `src/message.rs` — the frame parts of a routed message (`Header`,
  `RouteInfo`, `Txn`), the `Message` that holds them, the generic
  `decode`/`encode` over the `WireMessage` trait, and the law that decoding
  what was encoded gives the message back.
- `src/bodies.rs` — the bodies the router reads and answers with (`Connect`,
  `NetOk`, `NetError`, `Heartbeat`).
- `src/routing.rs` — route keys (FNV-1a for strings, the id's shard for
  `InstaId`), the `Routable`/`Persistable` traits, and the protocol of a
  message by its package name.
- `src/router.rs` — the registry of servers by protocol and shard, with its
  laws (what a registration, a drop and a renewal do).
- `src/conn.rs` — the frames a message is sent as, the frame-by-frame reading
  of a received message, and the law that the frames sent are read back.
- `src/server.rs` — what the router does with each message: handle
  registrations, disconnections and heartbeats, or pick the shard's server.
- `src/application.rs` — the decisions of a service application's proxy loop
  and of its pool of dispatcher workers.
- `app/` — the sockets, threads and configuration around the library; it
  performs the actions the library's decisions return.
- `tests/` — tests of the library on concrete values.
