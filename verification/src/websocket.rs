use vstd::prelude::*;
use vstd::string::*;

use crate::bus::EventBus;
use crate::external::{parse_uuid, random_uuid, uuid_parse};
use crate::message::{json_content_type, Message};

verus! {

/// Settings of the websocket server.
#[derive(Debug, Clone)]
pub struct WsConfig {
    pub channel_capacity: usize,
    pub auto_ack: bool,
}

impl Default for WsConfig {
    fn default() -> (r: Self)
        ensures
            r.channel_capacity == 100,
            r.auto_ack,
    {
        WsConfig { channel_capacity: 100, auto_ack: true }
    }
}

/// A message that a client asks the server to publish.
#[derive(Debug, Clone)]
pub struct PublishArgs {
    pub topic: String,
    pub payload: String,
    pub message_id: Option<String>,
}

/// What the server reads from a client.
pub enum WsRequest {
    Subscribe { pattern: String, starting_seq: Option<u64> },
    Publish { data: PublishArgs, ttl: Option<i64> },
    PublishBulk { messages: Vec<PublishArgs>, ttl: Option<i64> },
    Acknowledge { seq: u64, message_id: u128 },
}

/// What a websocket connection yields next.
pub enum Frame {
    /// A text frame that holds a well-formed request.
    Request(WsRequest),
    /// A text frame that is not a request.
    Malformed,
    /// The peer closed the connection.
    Close,
    /// A frame of another kind (binary, ping, pong).
    Other,
    /// The connection failed.
    Failed,
}

/// What the server does with a frame.
pub enum ConnectionAction {
    Subscribe { pattern: String, starting_seq: Option<u64> },
    Publish { data: PublishArgs, ttl: Option<i64> },
    PublishBatch { messages: Vec<(String, Vec<u8>)>, ttl: Option<i64> },
    Acknowledge { seq: u64, message_id: u128 },
    /// Read the next frame.
    Continue,
    /// End the connection.
    Stop,
}

/// A validated publish request: what will be published, under which id.
pub struct PublishPlan {
    pub topic: String,
    pub payload: Vec<u8>,
    pub message_id: u128,
}

/// The UTF-8 encoding of a text.
pub open spec fn utf8(s: Seq<char>) -> Seq<u8> {
    vstd::utf8::encode_utf8(s)
}

/// The topic and encoded payload of each message of a batch, in order.
pub open spec fn batch_entries(messages: Seq<PublishArgs>, out: Seq<(String, Vec<u8>)>) -> bool {
    &&& out.len() == messages.len()
    &&& forall|i: int|
        0 <= i < out.len() ==> (#[trigger] out[i]).0@ == messages[i].topic@ && out[i].1@ == utf8(
            messages[i].payload@,
        )
}

/// A batch request is read whole: one entry per requested message, in
/// order, each holding the message's topic and bytes that are valid UTF-8
/// and decode back to the message's payload.
pub proof fn lemma_batch_round_trip(messages: Seq<PublishArgs>, out: Seq<(String, Vec<u8>)>)
    requires
        batch_entries(messages, out),
    ensures
        out.len() == messages.len(),
        forall|i: int|
            0 <= i < messages.len() ==> {
                &&& (#[trigger] out[i]).0@ == messages[i].topic@
                &&& vstd::utf8::valid_utf8(out[i].1@)
                &&& vstd::utf8::decode_utf8(out[i].1@) == messages[i].payload@
            },
{
    assert forall|i: int| 0 <= i < messages.len() implies {
        &&& (#[trigger] out[i]).0@ == messages[i].topic@
        &&& vstd::utf8::valid_utf8(out[i].1@)
        &&& vstd::utf8::decode_utf8(out[i].1@) == messages[i].payload@
    } by {
        vstd::utf8::encode_utf8_valid_utf8(messages[i].payload@);
        vstd::utf8::encode_utf8_decode_utf8(messages[i].payload@);
    }
}

/// Reading two requests one after the other is reading them as one: the
/// entries of the joined request are those of the first, then those of
/// the second.
pub proof fn lemma_batch_concat(
    a: Seq<PublishArgs>,
    b: Seq<PublishArgs>,
    x: Seq<(String, Vec<u8>)>,
    y: Seq<(String, Vec<u8>)>,
)
    requires
        batch_entries(a, x),
        batch_entries(b, y),
    ensures
        batch_entries(a + b, x + y),
        (a + b).len() == (x + y).len(),
{
    assert forall|i: int| 0 <= i < (x + y).len() implies (#[trigger] (x + y)[i]).0@ == (a + b)[i].topic@
        && (x + y)[i].1@ == utf8((a + b)[i].payload@) by {
        if i >= x.len() {
            assert((x + y)[i] == y[i - x.len()]);
            assert((a + b)[i] == b[i - a.len()]);
        } else {
            assert((x + y)[i] == x[i]);
            assert((a + b)[i] == a[i]);
        }
    }
}

/// The identifier a message gets: the one its publisher gave, where that
/// parses as a UUID (`parsed`), or else the fresh one.
pub fn message_id_from(parsed: Option<u128>, fresh: u128) -> (r: u128)
    ensures
        r == match parsed {
            Some(id) => id,
            None => fresh,
        },
{
    match parsed {
        Some(id) => id,
        None => fresh,
    }
}

/// The identifier of a published message: the given text as a UUID when it
/// parses, a new random UUID otherwise.
pub fn resolve_message_id(raw: &Option<String>) -> (r: u128)
    ensures
        (raw matches Some(s) && uuid_parse(s@) is Some) ==> r == uuid_parse(raw->0@)->0,
        !(raw matches Some(s) && uuid_parse(s@) is Some) ==> r & 0xF000_C000_0000_0000_0000u128
            == 0x4000_8000_0000_0000_0000u128,
{
    let parsed = match raw {
        Some(s) => parse_uuid(s.as_str()),
        None => None,
    };
    let fresh = random_uuid();
    message_id_from(parsed, fresh)
}

/// Reads a publish request: its topic, its payload as UTF-8 bytes, and
/// the identifier it will be published under.
pub fn plan_publish(data: PublishArgs) -> (plan: PublishPlan)
    ensures
        plan.topic@ == data.topic@,
        plan.payload@ == utf8(data.payload@),
        (data.message_id matches Some(s) && uuid_parse(s@) is Some) ==> plan.message_id == uuid_parse(
            data.message_id->0@,
        )->0,
        !(data.message_id matches Some(s) && uuid_parse(s@) is Some) ==> plan.message_id
            & 0xF000_C000_0000_0000_0000u128 == 0x4000_8000_0000_0000_0000u128,
{
    let message_id = resolve_message_id(&data.message_id);
    let payload = data.payload.as_str().as_bytes_vec();
    PublishPlan { topic: data.topic, payload, message_id }
}

/// Publishes a planned message unless its identifier was already processed,
/// in which case the duplicate is dropped and the bus is left as it was.
pub fn handle_publish<C>(bus: &mut EventBus<C>, plan: PublishPlan, already_processed: bool) -> (r: Option<Message>)
    requires
        !already_processed ==> old(bus).seq_counter() < u64::MAX,
    ensures
        already_processed ==> r is None && *final(bus) == *old(bus),
        !already_processed ==> (r matches Some(msg) && {
            &&& msg.seq == old(bus).seq_counter()
            &&& msg.message_id == plan.message_id
            &&& msg.topic@ == plan.topic@
            &&& msg.payload@ == plan.payload@
            &&& msg.metadata.content_type@ == json_content_type()
            &&& final(bus).seq_counter() == old(bus).seq_counter() + 1
            &&& final(bus).clock_readings() == old(bus).clock_readings().push(msg.metadata.timestamp)
            &&& final(bus).same_routes(*old(bus))
            &&& final(bus).acks_automatically() == old(bus).acks_automatically()
            &&& final(bus).wf() == old(bus).wf()
        }),
{
    if already_processed {
        return None;
    }
    Some(bus.publish(plan.topic.as_str(), plan.message_id, plan.payload))
}

/// The topic and payload bytes of each message of a batch request.
pub fn batch_of(messages: Vec<PublishArgs>) -> (out: Vec<(String, Vec<u8>)>)
    ensures
        batch_entries(messages@, out@),
        out@.len() == messages@.len(),
        forall|i: int|
            0 <= i < messages@.len() ==> (#[trigger] out@[i]).0@ == messages@[i].topic@
                && out@[i].1@ == vstd::utf8::encode_utf8(messages@[i].payload@),
{
    let mut out: Vec<(String, Vec<u8>)> = Vec::new();
    let mut k: usize = 0;
    while k < messages.len()
        invariant
            k <= messages@.len(),
            out@.len() == k,
            forall|i: int|
                0 <= i < k ==> (#[trigger] out@[i]).0@ == messages@[i].topic@ && out@[i].1@ == utf8(
                    messages@[i].payload@,
                ),
        decreases messages@.len() - k,
    {
        let m = &messages[k];
        let topic = String::from_str(m.topic.as_str());
        let payload = m.payload.as_str().as_bytes_vec();
        out.push((topic, payload));
        k = k + 1;
    }
    out
}

/// What the server does with the next frame of a connection: a request is
/// carried out (a batch as its topics and encoded payloads), a malformed
/// text or a frame of another kind is skipped, and a close or a failure
/// ends the connection.
pub fn connection_step(frame: Frame) -> (action: ConnectionAction)
    ensures
        match frame {
            Frame::Request(WsRequest::Subscribe { pattern, starting_seq }) => action
                == (ConnectionAction::Subscribe { pattern, starting_seq }),
            Frame::Request(WsRequest::Publish { data, ttl }) => action == (ConnectionAction::Publish {
                data,
                ttl,
            }),
            Frame::Request(WsRequest::PublishBulk { messages, ttl }) => (action matches ConnectionAction::PublishBatch {
                messages: out,
                ttl: t,
            } && t == ttl && batch_entries(messages@, out@) && out@.len() == messages@.len()),
            Frame::Request(WsRequest::Acknowledge { seq, message_id }) => action
                == (ConnectionAction::Acknowledge { seq, message_id }),
            Frame::Malformed => action is Continue,
            Frame::Other => action is Continue,
            Frame::Close => action is Stop,
            Frame::Failed => action is Stop,
        },
{
    match frame {
        Frame::Request(request) => match request {
            WsRequest::Subscribe { pattern, starting_seq } => ConnectionAction::Subscribe {
                pattern,
                starting_seq,
            },
            WsRequest::Publish { data, ttl } => ConnectionAction::Publish { data, ttl },
            WsRequest::PublishBulk { messages, ttl } => ConnectionAction::PublishBatch {
                messages: batch_of(messages),
                ttl,
            },
            WsRequest::Acknowledge { seq, message_id } => ConnectionAction::Acknowledge {
                seq,
                message_id,
            },
        },
        Frame::Malformed => ConnectionAction::Continue,
        Frame::Other => ConnectionAction::Continue,
        Frame::Close => ConnectionAction::Stop,
        Frame::Failed => ConnectionAction::Stop,
    }
}

} // verus!
