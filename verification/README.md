# prk_eventbus

A publish/subscribe event bus. Clients publish messages on dotted topics
(`chat.user1`) and subscribe with patterns in which `*` stands for one
segment and `#` for any number of segments, none included.

`src/` is the verified core, each function proved against its contract:

- `topic`: splitting dotted names and matching a topic against a pattern
  (the filter used when stored messages are replayed);
- `trie`: the subscription trie, with what adding a subscriber does and
  which subscribers a topic reaches;
- `bus`: the routing state of the bus and the numbering of published
  messages;
- `websocket`: the server's reading of client requests, message
  identifiers and dropping of duplicates;
- `client`: the client's requests, its retry policy and its handling of
  incoming frames;
- `storage`: the storage that keeps nothing, and the replay filter over
  stored rows;
- `message`, `error`: the message and error types;
- `external`: the calls into `uuid`, `chrono` and `std::time`.

`app/` holds the asynchronous service around it: the axum websocket
server, the tokio-tungstenite client, SQLite storage through sqlx and TLS
configuration.
