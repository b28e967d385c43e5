//! Verified core of an event bus: topic patterns, the subscription trie,
//! sequencing of published messages and the decisions of the websocket
//! server and client.
pub mod bus;
pub mod client;
pub mod error;
pub mod external;
pub mod message;
pub mod storage;
pub mod topic;
pub mod trie;
pub mod websocket;
