use vstd::prelude::*;
use vstd::string::*;

use crate::external::{random_uuid, unix_now, ClockLog};
use crate::message::{json_content_type, Message, Metadata};
use crate::topic::{split_dots, split_segments, views};
use crate::topic::{segments_match, topic_matches};
use crate::trie::{lemma_occurrences_contains, occurrences, targets, PatternNode};

verus! {

/// The routing state of an event bus: the trie of subscriptions, whose
/// subscribers are values of type `C` (the sending ends of channels), and
/// the sequence number that the next published message gets.
#[verifier::reject_recursive_types(C)]
pub struct EventBus<C> {
    pattern_trie: PatternNode<C>,
    next_seq: u64,
    auto_ack: bool,
    subs: Ghost<Seq<(Seq<char>, C)>>,
    clock: ClockLog,
}

/// How many of the subscriptions `subs` (pattern, subscriber) subscribe `c`
/// to a pattern that `topic` matches.
pub open spec fn matching_count<C>(subs: Seq<(Seq<char>, C)>, topic: Seq<char>, c: C) -> nat
    decreases subs.len(),
{
    if subs.len() == 0 {
        0
    } else {
        matching_count(subs.drop_last(), topic, c) + if subs.last().1 == c && topic_matches(
            topic,
            subs.last().0,
        ) {
            1nat
        } else {
            0nat
        }
    }
}

impl<C> EventBus<C> {
    /// The bus is well formed: its trie is, and a message on any topic
    /// reaches each subscriber once per subscription to a matching pattern.
    pub closed spec fn wf(self) -> bool {
        &&& self.pattern_trie.wf()
        &&& forall|t: Seq<char>, c: C|
            #[trigger] occurrences(self.pattern_trie.collected(split_dots(t)), c) == matching_count(
                self.subs@,
                t,
                c,
            )
    }

    /// The subscriptions made so far, as (pattern, subscriber), in order.
    pub closed spec fn subscriptions(self) -> Seq<(Seq<char>, C)> {
        self.subs@
    }

    /// The sequence number of the next message.
    pub closed spec fn seq_counter(self) -> u64 {
        self.next_seq
    }

    /// The clock readings that the bus has taken to stamp messages, oldest
    /// first.
    pub closed spec fn clock_readings(self) -> Seq<i64> {
        self.clock.readings@
    }

    /// Whether the bus was configured to acknowledge automatically.
    pub closed spec fn acks_automatically(self) -> bool {
        self.auto_ack
    }

    /// The subscribers of a pattern, given as its segments, in the order in
    /// which they subscribed.
    pub closed spec fn subscribers(self, pattern: Seq<Seq<char>>) -> Seq<C> {
        self.pattern_trie.lookup(pattern)
    }

    /// The subscribers that a message on `topic` reaches, in delivery order.
    pub closed spec fn reached(self, topic: Seq<char>) -> Seq<C> {
        self.pattern_trie.collected(split_dots(topic))
    }

    /// The trie of `self` and that of `other` are the same.
    pub closed spec fn same_routes(self, other: Self) -> bool {
        self.pattern_trie == other.pattern_trie && self.subs@ == other.subs@
    }

    /// A bus with no subscriptions whose first message gets sequence number 0.
    pub fn new(auto_ack: bool) -> (bus: Self)
        ensures
            bus.wf(),
            bus.seq_counter() == 0,
            bus.acks_automatically() == auto_ack,
            bus.subscriptions() == Seq::<(Seq<char>, C)>::empty(),
            bus.clock_readings() == Seq::<i64>::empty(),
            forall|p: Seq<Seq<char>>| #[trigger] bus.subscribers(p) == Seq::<C>::empty(),
    {
        let bus = EventBus {
            pattern_trie: PatternNode::new(),
            next_seq: 0,
            auto_ack,
            subs: Ghost(Seq::empty()),
            clock: ClockLog::new(),
        };
        proof {
            assert forall|t: Seq<char>, c: C|
                #[trigger] occurrences(bus.pattern_trie.collected(split_dots(t)), c) == matching_count(
                    bus.subs@,
                    t,
                    c,
                ) by {
                bus.pattern_trie.lemma_collected_members(split_dots(t));
                lemma_occurrences_contains(bus.pattern_trie.collected(split_dots(t)), c);
            }
        }
        bus
    }

    /// The sequence number that the next published message gets.
    pub fn next_seq(&self) -> (r: u64)
        ensures
            r == self.seq_counter(),
    {
        self.next_seq
    }

    /// Whether the bus acknowledges automatically.
    pub fn auto_ack(&self) -> (r: bool)
        ensures
            r == self.acks_automatically(),
    {
        self.auto_ack
    }

    /// Builds the next message on `topic` with timestamp `timestamp`, giving
    /// it the current sequence number and advancing the counter.
    pub fn publish_at(&mut self, topic: &str, message_id: u128, payload: Vec<u8>, timestamp: i64) -> (msg: Message)
        requires
            old(self).seq_counter() < u64::MAX,
        ensures
            msg.seq == old(self).seq_counter(),
            msg.message_id == message_id,
            msg.topic@ == topic@,
            msg.payload@ == payload@,
            msg.metadata.timestamp == timestamp,
            msg.metadata.content_type@ == json_content_type(),
            final(self).seq_counter() == old(self).seq_counter() + 1,
            final(self).clock_readings() == old(self).clock_readings(),
            final(self).same_routes(*old(self)),
            final(self).acks_automatically() == old(self).acks_automatically(),
            final(self).wf() == old(self).wf(),
    {
        let seq = self.next_seq;
        self.next_seq = seq + 1;
        let content_type = String::from_str("application/json");
        proof {
            reveal_strlit("application/json");
        }
        Message {
            seq,
            message_id,
            topic: String::from_str(topic),
            payload,
            metadata: Metadata { timestamp, content_type },
        }
    }

    /// Builds the next message on `topic`, stamped with the current time.
    pub fn publish(&mut self, topic: &str, message_id: u128, payload: Vec<u8>) -> (msg: Message)
        requires
            old(self).seq_counter() < u64::MAX,
        ensures
            msg.seq == old(self).seq_counter(),
            msg.message_id == message_id,
            msg.topic@ == topic@,
            msg.payload@ == payload@,
            msg.metadata.content_type@ == json_content_type(),
            final(self).clock_readings() == old(self).clock_readings().push(msg.metadata.timestamp),
            final(self).seq_counter() == old(self).seq_counter() + 1,
            final(self).same_routes(*old(self)),
            final(self).acks_automatically() == old(self).acks_automatically(),
            final(self).wf() == old(self).wf(),
    {
        let now = unix_now(&mut self.clock);
        self.publish_at(topic, message_id, payload, now)
    }

    /// Builds one message per `(topic, payload)` pair, in order, each with a
    /// fresh random (version 4) identifier, consecutive sequence numbers and
    /// one common timestamp.
    pub fn publish_batch(&mut self, messages: Vec<(String, Vec<u8>)>) -> (msgs: Vec<Message>)
        requires
            old(self).seq_counter() + messages@.len() <= u64::MAX,
        ensures
            msgs@.len() == messages@.len(),
            forall|i: int| 0 <= i < msgs@.len() ==> {
                &&& (#[trigger] msgs@[i]).seq == old(self).seq_counter() + i
                &&& msgs@[i].topic@ == messages@[i].0@
                &&& msgs@[i].payload@ == messages@[i].1@
                &&& msgs@[i].metadata.content_type@ == json_content_type()
                &&& msgs@[i].metadata.timestamp == msgs@[0].metadata.timestamp
                &&& msgs@[i].metadata.timestamp == final(self).clock_readings().last()
                &&& msgs@[i].message_id & 0xF000_C000_0000_0000_0000u128 == 0x4000_8000_0000_0000_0000u128
            },
            final(self).clock_readings().len() == old(self).clock_readings().len() + 1,
            final(self).clock_readings().drop_last() == old(self).clock_readings(),
            final(self).seq_counter() == old(self).seq_counter() + messages@.len(),
            final(self).same_routes(*old(self)),
            final(self).acks_automatically() == old(self).acks_automatically(),
            final(self).wf() == old(self).wf(),
    {
        let now = unix_now(&mut self.clock);
        let ghost input = messages@;
        let ghost readings = self.clock.readings@;
        proof {
            assert(messages@.len() == messages.len());
        }
        let ghost start = self.next_seq;
        let mut rest = messages;
        let mut out: Vec<Message> = Vec::new();
        let mut k: usize = 0;
        while rest.len() > 0
            invariant
                k + rest@.len() == input.len(),
                input.len() <= usize::MAX,
                rest@ == input.skip(k as int),
                out@.len() == k,
                self.next_seq == start + k,
                start + input.len() <= u64::MAX,
                self.same_routes(*old(self)),
                self.acks_automatically() == old(self).acks_automatically(),
                self.wf() == old(self).wf(),
                self.clock.readings@ == readings,
                readings == old(self).clock.readings@.push(now),
                forall|i: int| 0 <= i < k ==> {
                    &&& (#[trigger] out@[i]).seq == start + i
                    &&& out@[i].topic@ == input[i].0@
                    &&& out@[i].payload@ == input[i].1@
                    &&& out@[i].metadata.content_type@ == json_content_type()
                    &&& out@[i].metadata.timestamp == now
                    &&& out@[i].message_id & 0xF000_C000_0000_0000_0000u128 == 0x4000_8000_0000_0000_0000u128
                },
            decreases rest@.len(),
        {
            let ghost before = rest@;
            let (topic, payload) = rest.remove(0);
            proof {
                assert(rest@ =~= input.skip(k + 1));
                assert(topic == input[k as int].0);
                assert(payload == input[k as int].1);
            }
            let id = random_uuid();
            let msg = self.publish_at(topic.as_str(), id, payload, now);
            out.push(msg);
            k = k + 1;
        }
        out
    }

    /// Subscribes `tx` to `pattern`.
    pub fn subscribe(&mut self, pattern: &str, tx: C)
        requires
            old(self).wf(),
        ensures
            final(self).wf(),
            final(self).seq_counter() == old(self).seq_counter(),
            final(self).acks_automatically() == old(self).acks_automatically(),
            final(self).subscriptions() == old(self).subscriptions().push((pattern@, tx)),
            forall|q: Seq<Seq<char>>| #[trigger] final(self).subscribers(q) == if q == split_dots(pattern@) {
                old(self).subscribers(q).push(tx)
            } else {
                old(self).subscribers(q)
            },
    {
        let ghost before = self.pattern_trie;
        let ghost subscriber = tx;
        let segments = split_segments(pattern);
        proof {
            assert(views(segments@).skip(0) =~= views(segments@));
        }
        self.pattern_trie.add_subscriber(&segments, 0, tx);
        self.subs = Ghost(self.subs@.push((pattern@, subscriber)));
        proof {
            let p = split_dots(pattern@);
            let old_subs = old(self).subs@;
            assert forall|t: Seq<char>, c: C|
                #[trigger] occurrences(self.pattern_trie.collected(split_dots(t)), c) == matching_count(
                    self.subs@,
                    t,
                    c,
                ) by {
                PatternNode::lemma_subscription_adds(self.pattern_trie, before, split_dots(t), p, subscriber);
                assert(occurrences(before.collected(split_dots(t)), c) == matching_count(old_subs, t, c));
                assert(self.subs@.drop_last() =~= old_subs);
            }
        }
    }

    /// The subscribers that a message on `topic` reaches, in delivery order,
    /// each once per subscription to a pattern that the topic matches.
    pub fn recipients<'a>(&'a self, topic: &str) -> (r: Vec<&'a C>)
        requires
            self.wf(),
        ensures
            targets(r@) == self.reached(topic@),
            forall|c: C|
                #[trigger] occurrences(targets(r@), c) == matching_count(self.subscriptions(), topic@, c),
    {
        let segments = split_segments(topic);
        proof {
            assert(views(segments@).skip(0) =~= views(segments@));
        }
        self.pattern_trie.collect_channels(&segments, 0)
    }
}

/// A subscriber subscribed once, to `subs[i].0`, is counted once for a
/// topic that matches that pattern and not at all otherwise.
pub proof fn lemma_matching_count_single<C>(subs: Seq<(Seq<char>, C)>, topic: Seq<char>, i: int)
    requires
        0 <= i < subs.len(),
        forall|j: int| 0 <= j < subs.len() && j != i ==> (#[trigger] subs[j]).1 != subs[i].1,
    ensures
        matching_count(subs, topic, subs[i].1) == if topic_matches(topic, subs[i].0) { 1nat } else { 0nat },
    decreases subs.len(),
{
    let c = subs[i].1;
    let d = subs.drop_last();
    if i == subs.len() - 1 {
        assert forall|j: int| 0 <= j < d.len() implies (#[trigger] d[j]).1 != c by {
            assert(d[j] == subs[j]);
        }
        lemma_matching_count_absent(d, topic, c);
    } else {
        assert(d[i] == subs[i]);
        assert forall|j: int| 0 <= j < d.len() && j != i implies (#[trigger] d[j]).1 != d[i].1 by {
            assert(d[j] == subs[j]);
        }
        lemma_matching_count_single(d, topic, i);
        assert(subs.last() == subs[subs.len() - 1]);
    }
}

/// A subscriber that never subscribed is counted nowhere.
pub proof fn lemma_matching_count_absent<C>(subs: Seq<(Seq<char>, C)>, topic: Seq<char>, c: C)
    requires
        forall|j: int| 0 <= j < subs.len() ==> (#[trigger] subs[j]).1 != c,
    ensures
        matching_count(subs, topic, c) == 0,
    decreases subs.len(),
{
    if subs.len() > 0 {
        let d = subs.drop_last();
        assert forall|j: int| 0 <= j < d.len() implies (#[trigger] d[j]).1 != c by {
            assert(d[j] == subs[j]);
        }
        lemma_matching_count_absent(d, topic, c);
        assert(subs.last() == subs[subs.len() - 1]);
    }
}

/// Who receives a message: a subscriber is reached by `topic` exactly when
/// it is subscribed to some pattern (as segments) that the topic matches.
pub proof fn lemma_reached_members<C>(bus: EventBus<C>, topic: Seq<char>)
    requires
        bus.wf(),
    ensures
        forall|c: C|
            #[trigger] bus.reached(topic).contains(c) <==> exists|q: Seq<Seq<char>>|
                #[trigger] bus.subscribers(q).contains(c) && segments_match(split_dots(topic), q),
{
    let t = split_dots(topic);
    bus.pattern_trie.lemma_collected_members(t);
    assert forall|c: C| #[trigger] bus.reached(topic).contains(c) <==> exists|q: Seq<Seq<char>>|
        #[trigger] bus.subscribers(q).contains(c) && segments_match(t, q) by {
        if bus.reached(topic).contains(c) {
            let q = choose|q: Seq<Seq<char>>| #[trigger] bus.pattern_trie.lookup(q).contains(c) && segments_match(t, q);
            assert(bus.subscribers(q).contains(c));
        }
        if exists|q: Seq<Seq<char>>| #[trigger] bus.subscribers(q).contains(c) && segments_match(t, q) {
            let q = choose|q: Seq<Seq<char>>| #[trigger] bus.subscribers(q).contains(c) && segments_match(t, q);
            assert(bus.pattern_trie.lookup(q).contains(c));
        }
    }
}

/// A subscriber that is subscribed to `pattern` alone is reached by a
/// message on `topic` once per subscription when the topic matches the
/// pattern, and not at all otherwise; with distinct subscribers, each is
/// reached exactly once when its pattern matches.
pub proof fn lemma_reached_once<C>(bus: EventBus<C>, topic: Seq<char>, pattern: Seq<char>, c: C)
    requires
        bus.wf(),
        forall|q: Seq<Seq<char>>| q != split_dots(pattern) ==> !(#[trigger] bus.subscribers(q)).contains(c),
    ensures
        occurrences(bus.reached(topic), c) == if topic_matches(topic, pattern) {
            occurrences(bus.subscribers(split_dots(pattern)), c)
        } else {
            0
        },
{
    let p = split_dots(pattern);
    assert forall|q: Seq<Seq<char>>| q != p implies !(#[trigger] bus.pattern_trie.lookup(q)).contains(c) by {
        assert(!bus.subscribers(q).contains(c));
    }
    bus.pattern_trie.lemma_collected_once(split_dots(topic), p, c);
}

/// Subscribing adds and never takes away: after `tx` subscribes to
/// `pattern`, a message on `topic` reaches every subscriber as often as
/// before, and `tx` once more exactly when the topic matches the pattern.  A
/// subscriber that was subscribed nowhere is thus reached, once, exactly when
/// the topic matches.
pub proof fn lemma_subscription_reaches<C>(
    before: EventBus<C>,
    after: EventBus<C>,
    pattern: Seq<char>,
    tx: C,
    topic: Seq<char>,
)
    requires
        before.wf(),
        after.wf(),
        forall|q: Seq<Seq<char>>| #[trigger] after.subscribers(q) == if q == split_dots(pattern) {
            before.subscribers(q).push(tx)
        } else {
            before.subscribers(q)
        },
    ensures
        forall|c: C|
            #[trigger] occurrences(after.reached(topic), c) == occurrences(before.reached(topic), c)
                + if c == tx && topic_matches(topic, pattern) {
                1nat
            } else {
                0nat
            },
        (forall|q: Seq<Seq<char>>| !(#[trigger] before.subscribers(q)).contains(tx)) ==> {
            &&& (after.reached(topic).contains(tx) <==> topic_matches(topic, pattern))
            &&& occurrences(after.reached(topic), tx) == if topic_matches(topic, pattern) {
                1nat
            } else {
                0nat
            }
        },
{
    let p = split_dots(pattern);
    let t = split_dots(topic);
    assert forall|q: Seq<Seq<char>>| q != p implies #[trigger] after.pattern_trie.lookup(q)
        == before.pattern_trie.lookup(q) by {
        assert(after.subscribers(q) == before.subscribers(q));
    }
    assert(after.subscribers(p) == before.subscribers(p).push(tx));
    PatternNode::lemma_subscription_adds(after.pattern_trie, before.pattern_trie, t, p, tx);
    assert(occurrences(after.reached(topic), tx) == occurrences(before.reached(topic), tx) + if topic_matches(topic, pattern) {
        1nat
    } else {
        0nat
    });
    if forall|q: Seq<Seq<char>>| !(#[trigger] before.subscribers(q)).contains(tx) {
        lemma_reached_members(before, topic);
        lemma_occurrences_contains(before.reached(topic), tx);
        lemma_occurrences_contains(after.reached(topic), tx);
    }
}

/// Publishing leaves routing alone: two buses with the same routes have the
/// same subscribers for every pattern and reach the same subscribers, in the
/// same order, for every topic.
pub proof fn lemma_same_routes_reach<C>(a: EventBus<C>, b: EventBus<C>)
    requires
        a.same_routes(b),
    ensures
        forall|p: Seq<Seq<char>>| #[trigger] a.subscribers(p) == b.subscribers(p),
        forall|t: Seq<char>| #[trigger] a.reached(t) == b.reached(t),
{
}

} // verus!
