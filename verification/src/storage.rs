use vstd::prelude::*;

use crate::external::{parse_uuid, uuid_parse};
use crate::message::{Message, Metadata};
use crate::topic::{lemma_topic_matches_itself, pattern_matches, topic_matches};

verus! {

/// The error type of the storage operations.
#[verifier::external_type_specification]
#[verifier::external_body]
pub struct ExAnyhowError(anyhow::Error);

/// A storage that keeps nothing: every write succeeds and is forgotten,
/// nothing is ever read back, and no message counts as processed.
pub struct NoStorage;

impl NoStorage {
    /// Accepts a message and reports sequence number 0.
    pub fn insert_message(&self, msg: &Message, ttl: Option<i64>) -> (r: Result<u64, anyhow::Error>)
        ensures
            r matches Ok(seq) && seq == 0,
    {
        Ok(0)
    }

    /// Accepts messages and reports sequence number 0 for each.
    pub fn insert_messages(&self, messages: &[Message], ttl: Option<i64>) -> (r: Result<Vec<u64>, anyhow::Error>)
        ensures
            r matches Ok(seqs) && seqs@ == Seq::new(messages@.len(), |i: int| 0u64),
    {
        let seqs = vec![0u64; messages.len()];
        proof {
            assert(seqs@ =~= Seq::new(messages@.len(), |i: int| 0u64));
        }
        Ok(seqs)
    }

    /// Accepts an acknowledgement.
    pub fn acknowledge_message(&self, seq: u64, message_id: u128) -> (r: Result<(), anyhow::Error>)
        ensures
            r is Ok,
    {
        Ok(())
    }

    /// Returns no message.
    pub fn get_messages_after(&self, seq: u64, pattern: &str) -> (r: Result<Vec<Message>, anyhow::Error>)
        ensures
            r matches Ok(msgs) && msgs@.len() == 0,
    {
        Ok(Vec::new())
    }

    /// No message counts as processed.
    pub fn is_message_processed(&self, message_id: u128) -> (r: Result<bool, anyhow::Error>)
        ensures
            r matches Ok(done) && !done,
    {
        Ok(false)
    }
}

/// A stored message as a row of the message table.
pub struct MessageRow {
    pub seq: i64,
    pub message_id: String,
    pub topic: String,
    pub payload: Vec<u8>,
    pub metadata: String,
}

/// The rows whose topic matches `pattern`, in their order.
pub open spec fn rows_matching(rows: Seq<MessageRow>, pattern: Seq<char>) -> Seq<MessageRow> {
    rows.filter(|row: MessageRow| topic_matches(row.topic@, pattern))
}

/// Replaying no stored rows gives no rows.
pub proof fn lemma_replay_empty(pattern: Seq<char>)
    ensures
        rows_matching(Seq::<MessageRow>::empty(), pattern) == Seq::<MessageRow>::empty(),
{
    reveal(Seq::filter);
}

/// Replay goes row by row: with one more stored row at the end, the replay
/// is that of the earlier rows, followed by the new row exactly when its
/// topic matches the pattern.
pub proof fn lemma_replay_push(rows: Seq<MessageRow>, row: MessageRow, pattern: Seq<char>)
    ensures
        rows_matching(rows.push(row), pattern) == if topic_matches(row.topic@, pattern) {
            rows_matching(rows, pattern).push(row)
        } else {
            rows_matching(rows, pattern)
        },
{
    reveal(Seq::filter);
    assert(rows.push(row).drop_last() =~= rows);
}

/// A row is replayed exactly when it is stored and its topic matches the
/// pattern.
pub proof fn lemma_replay_members(rows: Seq<MessageRow>, pattern: Seq<char>, row: MessageRow)
    ensures
        rows_matching(rows, pattern).contains(row) <==> (rows.contains(row) && topic_matches(
            row.topic@,
            pattern,
        )),
{
    let pred = |x: MessageRow| topic_matches(x.topic@, pattern);
    if rows_matching(rows, pattern).contains(row) {
        rows.lemma_filter_contains_rev(pred, row);
        let i = choose|i: int| 0 <= i < rows_matching(rows, pattern).len() && rows_matching(rows, pattern)[i] == row;
        rows.lemma_filter_pred(pred, i);
    }
    if rows.contains(row) && topic_matches(row.topic@, pattern) {
        let i = choose|i: int| 0 <= i < rows.len() && rows[i] == row;
        rows.lemma_filter_contains(pred, i);
    }
}

/// Subscribing to a stored row's own topic replays that row.
pub proof fn lemma_replay_own_topic(rows: Seq<MessageRow>, row: MessageRow)
    requires
        rows.contains(row),
    ensures
        rows_matching(rows, row.topic@).contains(row),
{
    lemma_topic_matches_itself(row.topic@);
    lemma_replay_members(rows, row.topic@, row);
}

/// Keeps the rows whose topic matches `pattern`, in their order.
pub fn filter_rows(rows: Vec<MessageRow>, pattern: &str) -> (r: Vec<MessageRow>)
    ensures
        r@ == rows_matching(rows@, pattern@),
        forall|row: MessageRow|
            #[trigger] r@.contains(row) <==> (rows@.contains(row) && topic_matches(row.topic@, pattern@)),
{
    let ghost input = rows@;
    proof {
        assert(rows@.len() == rows.len());
    }
    let ghost pred = |row: MessageRow| topic_matches(row.topic@, pattern@);
    let mut rest = rows;
    let mut out: Vec<MessageRow> = Vec::new();
    let mut k: usize = 0;
    proof {
        reveal(Seq::filter);
        assert(input.take(0) =~= Seq::<MessageRow>::empty());
    }
    while rest.len() > 0
        invariant
            k + rest@.len() == input.len(),
            input.len() <= usize::MAX,
            rest@ == input.skip(k as int),
            out@ == input.take(k as int).filter(pred),
            pred == (|row: MessageRow| topic_matches(row.topic@, pattern@)),
        decreases rest@.len(),
    {
        let row = rest.remove(0);
        proof {
            assert(rest@ =~= input.skip(k + 1));
            assert(row == input[k as int]);
            reveal(Seq::filter);
            assert(input.take(k + 1).drop_last() =~= input.take(k as int));
            assert(input.take(k + 1).last() == row);
        }
        if pattern_matches(row.topic.as_str(), pattern) {
            out.push(row);
        }
        k = k + 1;
    }
    proof {
        assert(input.take(k as int) =~= input);
        assert forall|row: MessageRow|
            #[trigger] out@.contains(row) <==> (input.contains(row) && topic_matches(row.topic@, pattern@)) by {
            lemma_replay_members(input, pattern@, row);
        }
    }
    out
}

impl MessageRow {
    /// The message a row holds, under identifier `message_id` and with the
    /// decoded metadata `metadata`.
    pub fn assemble(self, message_id: u128, metadata: Metadata) -> (m: Message)
        ensures
            m.seq == self.seq as u64,
            m.message_id == message_id,
            m.topic == self.topic,
            m.payload == self.payload,
            m.metadata == metadata,
    {
        Message {
            seq: self.seq as u64,
            message_id,
            topic: self.topic,
            payload: self.payload,
            metadata,
        }
    }

    /// The message a row holds, given its decoded metadata; `None` when the
    /// stored identifier is not a UUID.
    pub fn into_message(self, metadata: Metadata) -> (r: Option<Message>)
        ensures
            match uuid_parse(self.message_id@) {
                Some(id) => r matches Some(m) && m.seq == self.seq as u64 && m.message_id == id
                    && m.topic == self.topic && m.payload == self.payload && m.metadata == metadata,
                None => r is None,
            },
    {
        match parse_uuid(self.message_id.as_str()) {
            Some(id) => Some(self.assemble(id, metadata)),
            None => None,
        }
    }
}

} // verus!
