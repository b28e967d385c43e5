use vstd::prelude::*;
use vstd::string::*;

use crate::error::EventBusError;
use crate::external::{duration_of_secs, hyphenated, random_uuid, seconds, uuid_parse, uuid_text};
use crate::message::Message;

verus! {

/// Settings of a client: the server's address, the pause between two
/// connection attempts and how many attempts to make.
#[derive(Debug, Clone)]
pub struct ClientConfig {
    pub url: String,
    pub reconnect_interval: std::time::Duration,
    pub max_retries: usize,
}

impl Default for ClientConfig {
    fn default() -> (r: Self)
        ensures
            r.url@ == "ws://127.0.0.1:3000/ws"@,
            r.reconnect_interval == duration_of_secs(5),
            r.max_retries == 3,
    {
        ClientConfig {
            url: String::from_str("ws://127.0.0.1:3000/ws"),
            reconnect_interval: seconds(5),
            max_retries: 3,
        }
    }
}

/// What a client sends to the server.
pub enum ClientRequest {
    Publish { topic: String, payload: String, message_id: String, ttl: Option<i64> },
    PublishBatch { messages: Vec<(String, String)>, ttl: Option<i64> },
    Subscribe { pattern: String, starting_seq: Option<u64> },
    Ack { seq: u64, message_id: String },
}

/// The request that publishes `payload` on `topic` under `message_id`, or,
/// when none is given, under the identifier text `fresh`.
pub fn publish_request_with(
    topic: &str,
    payload: &str,
    message_id: Option<String>,
    fresh: String,
    ttl: Option<i64>,
) -> (r: ClientRequest)
    ensures
        r matches ClientRequest::Publish { topic: t, payload: p, message_id: id, ttl: l } && {
            &&& t@ == topic@
            &&& p@ == payload@
            &&& l == ttl
            &&& id == match message_id {
                Some(given) => given,
                None => fresh,
            }
        },
{
    let id = match message_id {
        Some(given) => given,
        None => fresh,
    };
    ClientRequest::Publish {
        topic: String::from_str(topic),
        payload: String::from_str(payload),
        message_id: id,
        ttl,
    }
}

/// The request that publishes `payload` on `topic` under `message_id`, or,
/// when none is given, under a new random UUID written in hyphenated form.
pub fn publish_request(topic: &str, payload: &str, message_id: Option<String>, ttl: Option<i64>) -> (r: ClientRequest)
    ensures
        r matches ClientRequest::Publish { topic: t, payload: p, message_id: id, ttl: l } && {
            &&& t@ == topic@
            &&& p@ == payload@
            &&& l == ttl
            &&& match message_id {
                Some(given) => id == given,
                None => exists|v: u128|
                    #![trigger hyphenated(v)]
                    id@ == hyphenated(v) && uuid_parse(id@) == Some(v) && v
                        & 0xF000_C000_0000_0000_0000u128 == 0x4000_8000_0000_0000_0000u128,
            }
        },
{
    let v = random_uuid();
    let fresh = uuid_text(v);
    publish_request_with(topic, payload, message_id, fresh, ttl)
}

/// The request that acknowledges message `seq` with identifier `message_id`,
/// the identifier written in hyphenated form, which parses back to it.
pub fn ack_request(seq: u64, message_id: u128) -> (r: ClientRequest)
    ensures
        r matches ClientRequest::Ack { seq: s, message_id: text } && s == seq && text@ == hyphenated(
            message_id,
        ) && uuid_parse(text@) == Some(message_id),
{
    ClientRequest::Ack { seq, message_id: uuid_text(message_id) }
}

/// The attempts left to a first connection: as many as the configured
/// number of retries, one fewer after each failure.
pub struct ConnectRetry {
    remaining: usize,
}

impl ConnectRetry {
    /// The number of attempts still allowed.
    pub closed spec fn attempts_left(self) -> nat {
        self.remaining as nat
    }

    /// Attempts for a client configured with `max_retries`.
    pub fn new(max_retries: usize) -> (r: Self)
        ensures
            r.attempts_left() == max_retries,
    {
        ConnectRetry { remaining: max_retries }
    }

    /// Whether another attempt is allowed.
    pub fn should_attempt(&self) -> (r: bool)
        ensures
            r == (self.attempts_left() > 0),
    {
        self.remaining > 0
    }

    /// Records a failed attempt.
    pub fn failed(&mut self)
        requires
            old(self).attempts_left() > 0,
        ensures
            final(self).attempts_left() == old(self).attempts_left() - 1,
    {
        self.remaining = self.remaining - 1;
    }
}

/// Counts the failed attempts to reconnect.
pub struct Reconnect {
    failures: usize,
    max_retries: usize,
}

impl Reconnect {
    /// The number of failed attempts so far.
    pub closed spec fn failure_count(self) -> nat {
        self.failures as nat
    }

    /// The configured number of retries.
    pub closed spec fn limit(self) -> nat {
        self.max_retries as nat
    }

    /// The number of failed attempts so far.
    pub fn failures(&self) -> (r: usize)
        ensures
            r == self.failure_count(),
    {
        self.failures
    }

    /// No attempt has failed yet.
    pub fn new(max_retries: usize) -> (r: Self)
        ensures
            r.failure_count() == 0,
            r.limit() == max_retries,
    {
        Reconnect { failures: 0, max_retries }
    }

    /// Records a failed attempt and tells whether to give up: the client
    /// gives up once the failures reach the configured number of retries
    /// (after the first failure when that number is 0), and otherwise waits
    /// and tries again.
    pub fn failed(&mut self) -> (give_up: bool)
        requires
            old(self).failure_count() < usize::MAX,
        ensures
            final(self).failure_count() == old(self).failure_count() + 1,
            final(self).limit() == old(self).limit(),
            give_up == (final(self).failure_count() >= final(self).limit()),
    {
        self.failures = self.failures + 1;
        self.failures >= self.max_retries
    }
}

/// The error a client reports when it gives up reconnecting after `cause`.
pub fn retries_exhausted(cause: &str) -> (e: EventBusError)
    ensures
        e matches EventBusError::Connection(text) && text@ == "Max retries exceeded: "@ + cause@,
{
    EventBusError::Connection(String::from_str("Max retries exceeded: ").concat(cause))
}

/// What a client reads next from its connection.
pub enum Incoming {
    /// A text frame that holds a message.
    Message(Message),
    /// A text frame that is not a message; the decoder's description.
    Malformed(String),
    /// A frame of another kind.
    Other,
    /// The connection failed; its description.
    Failed(String),
    /// The connection ended.
    Ended,
}

/// What a client does with what it read.
pub enum ReceiveAction {
    /// Hand the message to the caller.
    Deliver(Message),
    /// Report the error to the caller.
    Fail(EventBusError),
    /// Read again.
    Wait,
    /// Reconnect, then report the error.
    ReconnectThenFail(EventBusError),
    /// Reconnect, then read again.
    ReconnectThenWait,
}

/// How a client waiting for the next message treats what it read: a message
/// is returned, an unreadable text is a serialization error, other frames
/// are skipped, a failure makes the client reconnect and report it, and an
/// ended connection makes it reconnect and keep waiting.
pub fn receive_step(incoming: Incoming) -> (action: ReceiveAction)
    ensures
        match incoming {
            Incoming::Message(m) => action == ReceiveAction::Deliver(m),
            Incoming::Malformed(e) => action == ReceiveAction::Fail(EventBusError::Serialization(e)),
            Incoming::Other => action is Wait,
            Incoming::Failed(e) => action == ReceiveAction::ReconnectThenFail(EventBusError::WebSocket(e)),
            Incoming::Ended => action is ReconnectThenWait,
        },
{
    match incoming {
        Incoming::Message(m) => ReceiveAction::Deliver(m),
        Incoming::Malformed(e) => ReceiveAction::Fail(EventBusError::Serialization(e)),
        Incoming::Other => ReceiveAction::Wait,
        Incoming::Failed(e) => ReceiveAction::ReconnectThenFail(EventBusError::WebSocket(e)),
        Incoming::Ended => ReceiveAction::ReconnectThenWait,
    }
}

} // verus!
