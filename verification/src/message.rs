use vstd::prelude::*;

verus! {

/// When a message was published and how its payload is encoded.
#[derive(Debug, Clone)]
pub struct Metadata {
    pub timestamp: i64,
    pub content_type: String,
}

/// A published message.  `message_id` is the 128-bit value of its UUID.
#[derive(Debug, Clone)]
pub struct Message {
    pub seq: u64,
    pub message_id: u128,
    pub topic: String,
    pub payload: Vec<u8>,
    pub metadata: Metadata,
}

/// The content type that the bus gives every message it publishes.
pub open spec fn json_content_type() -> Seq<char> {
    "application/json"@
}

impl Message {
    /// The message under the sequence number that storage gave it when it
    /// was persisted; everything else stays as it was.
    pub fn with_seq(self, seq: u64) -> (m: Message)
        ensures
            m.seq == seq,
            m.message_id == self.message_id,
            m.topic == self.topic,
            m.payload == self.payload,
            m.metadata == self.metadata,
    {
        Message { seq, ..self }
    }
}

/// Each message of a batch under the sequence number that storage gave it,
/// in order.
pub fn with_stored_seqs(msgs: Vec<Message>, seqs: &Vec<u64>) -> (out: Vec<Message>)
    requires
        msgs@.len() == seqs@.len(),
    ensures
        out@.len() == msgs@.len(),
        forall|i: int| 0 <= i < out@.len() ==> {
            &&& (#[trigger] out@[i]).seq == seqs@[i]
            &&& out@[i].message_id == msgs@[i].message_id
            &&& out@[i].topic == msgs@[i].topic
            &&& out@[i].payload == msgs@[i].payload
            &&& out@[i].metadata == msgs@[i].metadata
        },
{
    let ghost input = msgs@;
    let mut rest = msgs;
    let mut out: Vec<Message> = Vec::new();
    let mut k: usize = 0;
    while rest.len() > 0
        invariant
            k + rest@.len() == input.len(),
            input.len() == seqs@.len(),
            seqs@.len() == seqs.len(),
            rest@ == input.skip(k as int),
            out@.len() == k,
            forall|i: int| 0 <= i < k ==> {
                &&& (#[trigger] out@[i]).seq == seqs@[i]
                &&& out@[i].message_id == input[i].message_id
                &&& out@[i].topic == input[i].topic
                &&& out@[i].payload == input[i].payload
                &&& out@[i].metadata == input[i].metadata
            },
        decreases rest@.len(),
    {
        let msg = rest.remove(0);
        proof {
            assert(rest@ =~= input.skip(k + 1));
            assert(msg == input[k as int]);
        }
        out.push(msg.with_seq(seqs[k]));
        k = k + 1;
    }
    out
}

} // verus!
