use vstd::prelude::*;
use vstd::string::*;

use crate::topic::{
    exact_match, hash, head_match, is_single_char, lemma_head_match_filter, segment_matches,
    segments_match, star, tail_match, views,
};

verus! {

/// A node of the subscription trie.  A subscription pattern is a path from
/// the root: a `*` segment leads to `wildcard_child`, a `#` segment to
/// `multi_wildcard`, and any other segment to the child of that name.  The
/// subscribers of a pattern are kept at the node where its path ends.  Below
/// the first `#` of a path lies the part of the pattern that must accept the
/// last segments of a topic; there `*` still stands for one segment and a
/// further `#` only for a segment `#`.  Children are kept in a vector under
/// distinct names: for `String` keys vstd's `HashMap` specification states
/// nothing unless the key type is assumed to obey its key model.
#[verifier::reject_recursive_types(C)]
pub struct PatternNode<C> {
    children: Vec<(String, PatternNode<C>)>,
    wildcard_child: Option<Box<PatternNode<C>>>,
    multi_wildcard: Option<Box<PatternNode<C>>>,
    channels: Vec<C>,
}

/// The subscribers that a list of references designates.
pub open spec fn targets<C>(r: Seq<&C>) -> Seq<C> {
    r.map_values(|c: &C| *c)
}

proof fn lemma_same_head_tail<A>(a: Seq<A>, b: Seq<A>)
    requires
        a.len() > 0,
        b.len() > 0,
        a[0] == b[0],
        a.drop_first() == b.drop_first(),
    ensures
        a == b,
{
    assert(a.drop_first().len() == a.len() - 1);
    assert(b.drop_first().len() == b.len() - 1);
    assert(a.len() == b.len());
    assert forall|k: int| 0 <= k < a.len() implies a[k] == b[k] by {
        if k > 0 {
            assert(a[k] == a.drop_first()[k - 1]);
            assert(b[k] == b.drop_first()[k - 1]);
        }
    }
    assert(a =~= b);
}


/// The two wildcard segments are different texts.
pub proof fn lemma_wildcards_differ()
    ensures
        star() != hash(),
{
    assert(star()[0] != hash()[0]);
}

/// How many times `x` occurs in `s`.
pub open spec fn occurrences<A>(s: Seq<A>, x: A) -> nat
    decreases s.len(),
{
    if s.len() == 0 {
        0
    } else {
        occurrences(s.drop_last(), x) + if s.last() == x {
            1nat
        } else {
            0nat
        }
    }
}

pub proof fn lemma_occurrences_add<A>(a: Seq<A>, b: Seq<A>, x: A)
    ensures
        occurrences(a + b, x) == occurrences(a, x) + occurrences(b, x),
    decreases b.len(),
{
    if b.len() == 0 {
        assert(a + b =~= a);
    } else {
        assert((a + b).drop_last() =~= a + b.drop_last());
        assert((a + b).last() == b.last());
        lemma_occurrences_add(a, b.drop_last(), x);
    }
}

pub proof fn lemma_occurrences_contains<A>(s: Seq<A>, x: A)
    ensures
        (occurrences(s, x) > 0) <==> s.contains(x),
    decreases s.len(),
{
    if s.len() > 0 {
        lemma_occurrences_contains(s.drop_last(), x);
        if s.drop_last().contains(x) {
            let k = choose|k: int| 0 <= k < s.drop_last().len() && s.drop_last()[k] == x;
            assert(s[k] == x);
        }
        if s.contains(x) && s.last() != x {
            let k = choose|k: int| 0 <= k < s.len() && s[k] == x;
            assert(k != s.len() - 1);
            assert(s.drop_last()[k] == x);
        }
        if s.last() == x {
            assert(s[s.len() - 1] == x);
        }
    }
}

impl<C> PatternNode<C> {
    /// There is a child whose name is `key`.
    pub closed spec fn has_child(self, key: Seq<char>) -> bool {
        exists|i: int| 0 <= i < self.children@.len() && #[trigger] self.children@[i].0@ == key
    }

    /// The child whose name is `key`.
    pub closed spec fn child(self, key: Seq<char>) -> PatternNode<C>
        recommends
            self.has_child(key),
    {
        self.children@[choose|i: int|
            0 <= i < self.children@.len() && #[trigger] self.children@[i].0@ == key].1
    }

    /// The subscribers of pattern `p` (as its segments), in the order in
    /// which they subscribed.
    pub closed spec fn lookup(self, p: Seq<Seq<char>>) -> Seq<C>
        decreases p.len(),
    {
        if p.len() == 0 {
            self.channels@
        } else if p[0] == star() {
            match self.wildcard_child {
                Some(w) => w.lookup(p.drop_first()),
                None => Seq::empty(),
            }
        } else if p[0] == hash() {
            match self.multi_wildcard {
                Some(m) => m.lookup(p.drop_first()),
                None => Seq::empty(),
            }
        } else if self.has_child(p[0]) {
            self.child(p[0]).lookup(p.drop_first())
        } else {
            Seq::empty()
        }
    }

    /// Children have distinct names, none of which is a wildcard, and every
    /// node below is well formed too.
    pub closed spec fn wf(self) -> bool
        decreases self,
    {
        &&& forall|i: int, j: int|
            0 <= i < j < self.children@.len() ==> #[trigger] self.children@[i].0@
                != #[trigger] self.children@[j].0@
        &&& forall|i: int|
            0 <= i < self.children@.len() ==> #[trigger] self.children@[i].0@ != star()
                && self.children@[i].0@ != hash()
        &&& forall|i: int|
            0 <= i < self.children@.len() ==> (#[trigger] self.children@[i]).1.wf()
        &&& match self.wildcard_child {
            Some(w) => w.wf(),
            None => true,
        }
        &&& match self.multi_wildcard {
            Some(m) => m.wf(),
            None => true,
        }
    }

    /// An empty node.
    pub fn new() -> (n: Self)
        ensures
            n.wf(),
            forall|p: Seq<Seq<char>>| #[trigger] n.lookup(p) == Seq::<C>::empty(),
    {
        let n = PatternNode {
            children: Vec::new(),
            wildcard_child: None,
            multi_wildcard: None,
            channels: Vec::new(),
        };
        proof {
            assert forall|p: Seq<Seq<char>>| #[trigger] n.lookup(p) == Seq::<C>::empty() by {
                if p.len() == 0 {
                    assert(n.channels@ =~= Seq::<C>::empty());
                }
            }
        }
        n
    }

    /// The position of the child named `key`, if there is one.
    fn find_child(&self, key: &String) -> (r: Option<usize>)
        ensures
            match r {
                Some(j) => j < self.children@.len() && self.children@[j as int].0@ == key@,
                None => !self.has_child(key@),
            },
    {
        let mut j: usize = 0;
        while j < self.children.len()
            invariant
                j <= self.children@.len(),
                forall|m: int| 0 <= m < j ==> #[trigger] self.children@[m].0@ != key@,
            decreases self.children@.len() - j,
        {
            if self.children[j].0.eq(key) {
                return Some(j);
            }
            j = j + 1;
        }
        None
    }

    proof fn lemma_child_at(self, j: int)
        requires
            self.wf(),
            0 <= j < self.children@.len(),
        ensures
            self.has_child(self.children@[j].0@),
            self.child(self.children@[j].0@) == self.children@[j].1,
            self.children@[j].1.wf(),
    {
        let key = self.children@[j].0@;
        assert(self.children@[j].0@ == key);
        let k = choose|i: int| 0 <= i < self.children@.len() && #[trigger] self.children@[i].0@ == key;
        assert(k == j) by {
            if k < j {
                assert(self.children@[k].0@ != self.children@[j].0@);
            } else if k > j {
                assert(self.children@[j].0@ != self.children@[k].0@);
            }
        }
    }

    /// Records `tx` as a subscriber of the pattern made of the segments of
    /// `segments` from position `i` on, creating the nodes on its path.
    pub fn add_subscriber(&mut self, segments: &Vec<String>, i: usize, tx: C)
        requires
            old(self).wf(),
            i <= segments@.len(),
        ensures
            final(self).wf(),
            forall|q: Seq<Seq<char>>| #[trigger] final(self).lookup(q) == if q == views(segments@).skip(i as int) {
                old(self).lookup(q).push(tx)
            } else {
                old(self).lookup(q)
            },
        decreases segments@.len() - i,
    {
        let ghost pre = *self;
        let ghost path = views(segments@).skip(i as int);
        if i == segments.len() {
            self.channels.push(tx);
            proof {
                assert(path =~= Seq::<Seq<char>>::empty());
                assert forall|q: Seq<Seq<char>>| #[trigger] self.lookup(q) == if q == path {
                    pre.lookup(q).push(tx)
                } else {
                    pre.lookup(q)
                } by {
                    if q.len() == 0 {
                        assert(q =~= path);
                    } else if q[0] != star() && q[0] != hash() {
                        if pre.has_child(q[0]) {
                            assert(self.has_child(q[0]));
                        }
                        if self.has_child(q[0]) {
                            assert(pre.has_child(q[0]));
                        }
                    }
                }
            }
            return;
        }
        let seg = &segments[i];
        let ghost sv = seg@;
        proof {
            assert(path.len() > 0 && path[0] == sv);
            assert(path.drop_first() =~= views(segments@).skip(i + 1));
        }
        if is_single_char(seg, '*') {
            let mut w = match self.wildcard_child.take() {
                Some(b) => b,
                None => Box::new(PatternNode::new()),
            };
            let ghost w0 = *w;
            proof {
                assert(sv == star());
                assert forall|r: Seq<Seq<char>>| #[trigger] w0.lookup(r) == match pre.wildcard_child {
                    Some(x) => x.lookup(r),
                    None => Seq::<C>::empty(),
                } by {}
            }
            (&mut *w).add_subscriber(segments, i + 1, tx);
            let ghost w1 = *w;
            self.wildcard_child = Some(w);
            proof {
                assert forall|q: Seq<Seq<char>>| #[trigger] self.lookup(q) == if q == path {
                    pre.lookup(q).push(tx)
                } else {
                    pre.lookup(q)
                } by {
                    if q.len() > 0 && q[0] == star() {
                        assert(self.lookup(q) == w1.lookup(q.drop_first()));
                        assert(pre.lookup(q) == w0.lookup(q.drop_first()));
                        assert(q == path <==> q.drop_first() == path.drop_first()) by {
                            if q.drop_first() == path.drop_first() {
                                lemma_same_head_tail(q, path);
                            }
                        }
                    } else if q.len() > 0 && q[0] != hash() {
                        if pre.has_child(q[0]) {
                            assert(self.has_child(q[0]));
                        }
                        if self.has_child(q[0]) {
                            assert(pre.has_child(q[0]));
                        }
                        assert(q != path);
                    } else {
                        assert(q != path);
                    }
                }
            }
        } else if is_single_char(seg, '#') {
            let mut m = match self.multi_wildcard.take() {
                Some(b) => b,
                None => Box::new(PatternNode::new()),
            };
            let ghost m0 = *m;
            proof {
                assert(sv == hash());
                assert forall|r: Seq<Seq<char>>| #[trigger] m0.lookup(r) == match pre.multi_wildcard {
                    Some(x) => x.lookup(r),
                    None => Seq::<C>::empty(),
                } by {}
            }
            (&mut *m).add_subscriber(segments, i + 1, tx);
            let ghost m1 = *m;
            self.multi_wildcard = Some(m);
            proof {
                assert forall|q: Seq<Seq<char>>| #[trigger] self.lookup(q) == if q == path {
                    pre.lookup(q).push(tx)
                } else {
                    pre.lookup(q)
                } by {
                    if q.len() > 0 && q[0] == hash() {
                        assert(self.lookup(q) == m1.lookup(q.drop_first()));
                        assert(pre.lookup(q) == m0.lookup(q.drop_first()));
                        assert(q == path <==> q.drop_first() == path.drop_first()) by {
                            if q.drop_first() == path.drop_first() {
                                lemma_same_head_tail(q, path);
                            }
                        }
                    } else if q.len() > 0 && q[0] != star() {
                        if pre.has_child(q[0]) {
                            assert(self.has_child(q[0]));
                        }
                        if self.has_child(q[0]) {
                            assert(pre.has_child(q[0]));
                        }
                        assert(q != path);
                    } else {
                        assert(q != path);
                    }
                }
            }
        } else {
            match self.find_child(seg) {
                Some(j) => {
                    proof {
                        pre.lemma_child_at(j as int);
                    }
                    let (key, mut child) = self.children.remove(j);
                    let ghost c0 = child;
                    child.add_subscriber(segments, i + 1, tx);
                    let ghost c1 = child;
                    self.children.insert(j, (key, child));
                    proof {
                        assert forall|a: int, b: int|
                            0 <= a < b < self.children@.len() implies #[trigger] self.children@[a].0@
                            != #[trigger] self.children@[b].0@ by {
                            assert(self.children@[a].0@ == pre.children@[a].0@);
                            assert(self.children@[b].0@ == pre.children@[b].0@);
                        }
                        assert forall|a: int| 0 <= a < self.children@.len() implies (
                        #[trigger] self.children@[a]).1.wf() by {
                            if a != j {
                                assert(self.children@[a] == pre.children@[a]);
                            }
                        }
                        assert forall|a: int| 0 <= a < self.children@.len() implies #[trigger] self.children@[a].0@
                            != star() && self.children@[a].0@ != hash() by {
                            assert(self.children@[a].0@ == pre.children@[a].0@);
                        }
                        self.lemma_child_at(j as int);
                        assert forall|q: Seq<Seq<char>>| #[trigger] self.lookup(q) == if q == path {
                            pre.lookup(q).push(tx)
                        } else {
                            pre.lookup(q)
                        } by {
                            if q.len() > 0 && q[0] != star() && q[0] != hash() {
                                if q[0] == sv {
                                    assert(self.lookup(q) == c1.lookup(q.drop_first()));
                                    assert(pre.lookup(q) == c0.lookup(q.drop_first()));
                                    assert(q == path <==> q.drop_first() == path.drop_first()) by {
                                        if q.drop_first() == path.drop_first() {
                                            lemma_same_head_tail(q, path);
                                        }
                                    }
                                } else {
                                    assert(q != path);
                                    if pre.has_child(q[0]) {
                                        let a = choose|a: int| 0 <= a < pre.children@.len() && #[trigger] pre.children@[a].0@ == q[0];
                                        pre.lemma_child_at(a);
                                        assert(self.children@[a] == pre.children@[a]);
                                        self.lemma_child_at(a);
                                    }
                                    if self.has_child(q[0]) {
                                        let a = choose|a: int| 0 <= a < self.children@.len() && #[trigger] self.children@[a].0@ == q[0];
                                        assert(self.children@[a].0@ == pre.children@[a].0@);
                                        assert(pre.has_child(q[0]));
                                    }
                                }
                            } else if q.len() > 0 {
                                assert(q != path);
                            } else {
                                assert(q != path);
                            }
                        }
                    }
                },
                None => {
                    let mut child = PatternNode::new();
                    let ghost c0 = child;
                    child.add_subscriber(segments, i + 1, tx);
                    let ghost c1 = child;
                    let key = seg.clone();
                    self.children.push((key, child));
                    proof {
                        let j = pre.children@.len() as int;
                        assert(self.children@[j].0@ == sv);
                        assert forall|a: int, b: int|
                            0 <= a < b < self.children@.len() implies #[trigger] self.children@[a].0@
                            != #[trigger] self.children@[b].0@ by {
                            if b == j {
                                assert(self.children@[a] == pre.children@[a]);
                            } else {
                                assert(self.children@[a] == pre.children@[a]);
                                assert(self.children@[b] == pre.children@[b]);
                            }
                        }
                        assert forall|a: int| 0 <= a < self.children@.len() implies (
                        #[trigger] self.children@[a]).1.wf() by {
                            if a != j {
                                assert(self.children@[a] == pre.children@[a]);
                            }
                        }
                        assert forall|a: int| 0 <= a < self.children@.len() implies #[trigger] self.children@[a].0@
                            != star() && self.children@[a].0@ != hash() by {
                            if a != j {
                                assert(self.children@[a] == pre.children@[a]);
                            }
                        }
                        self.lemma_child_at(j);
                        assert forall|q: Seq<Seq<char>>| #[trigger] self.lookup(q) == if q == path {
                            pre.lookup(q).push(tx)
                        } else {
                            pre.lookup(q)
                        } by {
                            if q.len() > 0 && q[0] != star() && q[0] != hash() {
                                if q[0] == sv {
                                    assert(self.lookup(q) == c1.lookup(q.drop_first()));
                                    assert(pre.lookup(q) == c0.lookup(q.drop_first()));
                                    assert(q == path <==> q.drop_first() == path.drop_first()) by {
                                        if q.drop_first() == path.drop_first() {
                                            lemma_same_head_tail(q, path);
                                        }
                                    }
                                } else {
                                    assert(q != path);
                                    if pre.has_child(q[0]) {
                                        let a = choose|a: int| 0 <= a < pre.children@.len() && #[trigger] pre.children@[a].0@ == q[0];
                                        pre.lemma_child_at(a);
                                        assert(self.children@[a] == pre.children@[a]);
                                        self.lemma_child_at(a);
                                    }
                                    if self.has_child(q[0]) {
                                        let a = choose|a: int| 0 <= a < self.children@.len() && #[trigger] self.children@[a].0@ == q[0];
                                        assert(a != j);
                                        assert(self.children@[a] == pre.children@[a]);
                                        assert(pre.has_child(q[0]));
                                    }
                                }
                            } else {
                                assert(q != path);
                            }
                        }
                    }
                },
            }
        }
    }

    /// Appends references to all of `src` to `result`.
    fn push_all<'a>(result: &mut Vec<&'a C>, src: &'a Vec<C>)
        ensures
            targets(final(result)@) == targets(old(result)@) + src@,
    {
        let ghost start = targets(result@);
        let mut k: usize = 0;
        while k < src.len()
            invariant
                k <= src@.len(),
                targets(result@) == start + src@.take(k as int),
            decreases src@.len() - k,
        {
            let ghost before = result@;
            result.push(&src[k]);
            proof {
                assert(targets(result@) =~= targets(before).push(src@[k as int]));
                assert(src@.take(k + 1) =~= src@.take(k as int).push(src@[k as int]));
            }
            k = k + 1;
        }
        proof {
            assert(src@.take(src@.len() as int) =~= src@);
        }
    }

    /// Appends the references of `more` to `result`.
    fn append_targets<'a>(result: &mut Vec<&'a C>, more: Vec<&'a C>)
        ensures
            targets(final(result)@) == targets(old(result)@) + targets(more@),
    {
        let mut more = more;
        let ghost a = result@;
        let ghost b = more@;
        result.append(&mut more);
        proof {
            assert(targets(result@) =~= targets(a) + targets(b));
        }
    }

    proof fn lemma_lookup_below(self, x: Seq<char>, q: Seq<Seq<char>>)
        requires
            self.wf(),
        ensures
            x == star() ==> self.lookup(seq![x] + q) == match self.wildcard_child {
                Some(w) => w.lookup(q),
                None => Seq::<C>::empty(),
            },
            x == hash() ==> self.lookup(seq![x] + q) == match self.multi_wildcard {
                Some(m) => m.lookup(q),
                None => Seq::<C>::empty(),
            },
            x != star() && x != hash() && self.has_child(x) ==> self.lookup(seq![x] + q)
                == self.child(x).lookup(q),
            x != star() && x != hash() && !self.has_child(x) ==> self.lookup(seq![x] + q)
                == Seq::<C>::empty(),
    {
        lemma_wildcards_differ();
        let p = seq![x] + q;
        assert(p.drop_first() =~= q);
        assert(p[0] == x);
    }
}

/// The patterns, as segments, that accept topic segments `r` one for one:
/// each segment is either the topic's own segment or `*`.
pub open spec fn exact_patterns(r: Seq<Seq<char>>) -> Seq<Seq<Seq<char>>>
    decreases r.len(),
{
    if r.len() == 0 {
        seq![Seq::<Seq<char>>::empty()]
    } else {
        let rest = exact_patterns(r.drop_first());
        if r[0] == star() {
            prefixed(star(), rest)
        } else {
            prefixed(r[0], rest) + prefixed(star(), rest)
        }
    }
}

/// The patterns that accept some tail of `r` one for one, the longest tail
/// first.
pub open spec fn tail_patterns(r: Seq<Seq<char>>) -> Seq<Seq<Seq<char>>>
    decreases r.len(),
{
    if r.len() == 0 {
        exact_patterns(r)
    } else {
        exact_patterns(r) + tail_patterns(r.drop_first())
    }
}

/// The patterns that the replay filter matches against topic segments `r`:
/// `#` followed by a pattern for a tail of `r`, or, segment by segment, the
/// topic's own segment or `*` followed by a pattern for the rest.
pub open spec fn head_patterns(r: Seq<Seq<char>>) -> Seq<Seq<Seq<char>>>
    decreases r.len(),
{
    let hashed = prefixed(hash(), tail_patterns(r));
    if r.len() == 0 {
        hashed + seq![Seq::<Seq<char>>::empty()]
    } else {
        let rest = head_patterns(r.drop_first());
        if r[0] == star() || r[0] == hash() {
            hashed + prefixed(star(), rest)
        } else {
            hashed + prefixed(r[0], rest) + prefixed(star(), rest)
        }
    }
}

/// Each pattern of `qs` with segment `x` put in front.
pub open spec fn prefixed(x: Seq<char>, qs: Seq<Seq<Seq<char>>>) -> Seq<Seq<Seq<char>>> {
    qs.map_values(|q: Seq<Seq<char>>| seq![x] + q)
}

proof fn lemma_occurrences_prefixed(x: Seq<char>, qs: Seq<Seq<Seq<char>>>, q: Seq<Seq<char>>)
    ensures
        occurrences(prefixed(x, qs), q) == if q.len() > 0 && q[0] == x {
            occurrences(qs, q.drop_first())
        } else {
            0
        },
    decreases qs.len(),
{
    if qs.len() > 0 {
        assert(prefixed(x, qs).drop_last() =~= prefixed(x, qs.drop_last()));
        lemma_occurrences_prefixed(x, qs.drop_last(), q);
        let last = seq![x] + qs.last();
        assert(prefixed(x, qs).last() == last);
        assert(last.drop_first() =~= qs.last());
        if last == q {
            assert(q[0] == x);
        }
        if q.len() > 0 && q[0] == x && q.drop_first() == qs.last() {
            lemma_same_head_tail(q, last);
        }
    }
}

proof fn lemma_occurrences_single<A>(x: A, y: A)
    ensures
        occurrences(seq![x], y) == if x == y { 1nat } else { 0nat },
{
    assert(seq![x].drop_last() =~= Seq::<A>::empty());
    assert(occurrences(Seq::<A>::empty(), y) == 0);
}

proof fn lemma_exact_match_step(q: Seq<Seq<char>>, r: Seq<Seq<char>>)
    requires
        r.len() > 0,
    ensures
        exact_match(q, r) <==> (q.len() > 0 && segment_matches(q[0], r[0]) && exact_match(
            q.drop_first(),
            r.drop_first(),
        )),
{
    let q1 = q.drop_first();
    let r1 = r.drop_first();
    if exact_match(q, r) {
        assert(segment_matches(q[0], r[0]));
        assert forall|j: int| 0 <= j < q1.len() implies #[trigger] segment_matches(q1[j], r1[j]) by {
            assert(segment_matches(q[j + 1], r[j + 1]));
        }
    }
    if q.len() > 0 && segment_matches(q[0], r[0]) && exact_match(q1, r1) {
        assert forall|j: int| 0 <= j < q.len() implies #[trigger] segment_matches(q[j], r[j]) by {
            if j > 0 {
                assert(segment_matches(q1[j - 1], r1[j - 1]));
            }
        }
    }
}

proof fn lemma_tail_match_step(q: Seq<Seq<char>>, r: Seq<Seq<char>>)
    requires
        r.len() > 0,
    ensures
        tail_match(q, r) <==> (exact_match(q, r) || tail_match(q, r.drop_first())),
        !(exact_match(q, r) && tail_match(q, r.drop_first())),
{
    let r1 = r.drop_first();
    if q.len() == r.len() {
        if tail_match(q, r) {
            assert forall|j: int| 0 <= j < q.len() implies #[trigger] segment_matches(q[j], r[j]) by {
                assert(r.len() - q.len() + j == j);
            }
        }
        if exact_match(q, r) {
            assert forall|j: int| 0 <= j < q.len() implies #[trigger] segment_matches(q[j], r[r.len() - q.len() + j]) by {
                assert(r.len() - q.len() + j == j);
            }
        }
    }
    if q.len() < r.len() {
        if tail_match(q, r) {
            assert forall|j: int| 0 <= j < q.len() implies #[trigger] segment_matches(q[j], r1[r1.len() - q.len() + j]) by {
                assert(r1[r1.len() - q.len() + j] == r[r.len() - q.len() + j]);
            }
        }
        if tail_match(q, r1) {
            assert forall|j: int| 0 <= j < q.len() implies #[trigger] segment_matches(q[j], r[r.len() - q.len() + j]) by {
                assert(r1[r1.len() - q.len() + j] == r[r.len() - q.len() + j]);
            }
        }
    }
}

/// A pattern accepts topic segments `r` one for one exactly once among
/// `exact_patterns(r)`, and is absent otherwise.
pub proof fn lemma_exact_patterns(r: Seq<Seq<char>>, q: Seq<Seq<char>>)
    ensures
        occurrences(exact_patterns(r), q) == if exact_match(q, r) { 1nat } else { 0nat },
    decreases r.len(),
{
    if r.len() == 0 {
        let e = Seq::<Seq<char>>::empty();
        lemma_occurrences_single(e, q);
        if q.len() == 0 {
            assert(q =~= e);
        }
    } else {
        lemma_wildcards_differ();
        let r1 = r.drop_first();
        let rest = exact_patterns(r1);
        lemma_exact_match_step(q, r);
        if q.len() > 0 {
            lemma_exact_patterns(r1, q.drop_first());
        }
        lemma_occurrences_prefixed(star(), rest, q);
        if r[0] != star() {
            lemma_occurrences_add(prefixed(r[0], rest), prefixed(star(), rest), q);
            lemma_occurrences_prefixed(r[0], rest, q);
        }
    }
}

/// A pattern accepts some tail of `r` exactly once among `tail_patterns(r)`.
pub proof fn lemma_tail_patterns(r: Seq<Seq<char>>, q: Seq<Seq<char>>)
    ensures
        occurrences(tail_patterns(r), q) == if tail_match(q, r) { 1nat } else { 0nat },
    decreases r.len(),
{
    lemma_exact_patterns(r, q);
    if r.len() == 0 {
        assert(tail_match(q, r) == exact_match(q, r));
    } else {
        lemma_tail_patterns(r.drop_first(), q);
        lemma_tail_match_step(q, r);
        lemma_occurrences_add(exact_patterns(r), tail_patterns(r.drop_first()), q);
    }
}

/// A pattern that the replay filter matches against `r` occurs exactly once
/// among `head_patterns(r)`; any other pattern does not occur.
pub proof fn lemma_head_patterns(r: Seq<Seq<char>>, q: Seq<Seq<char>>)
    ensures
        occurrences(head_patterns(r), q) == if segments_match(r, q) { 1nat } else { 0nat },
    decreases r.len(),
{
    lemma_wildcards_differ();
    lemma_head_match_filter(q, r);
    let hashed = prefixed(hash(), tail_patterns(r));
    lemma_occurrences_prefixed(hash(), tail_patterns(r), q);
    if q.len() > 0 {
        lemma_tail_patterns(r, q.drop_first());
    }
    if r.len() == 0 {
        let e = Seq::<Seq<char>>::empty();
        lemma_occurrences_add(hashed, seq![e], q);
        lemma_occurrences_single(e, q);
        if q.len() == 0 {
            assert(q =~= e);
        }
    } else {
        let r1 = r.drop_first();
        let rest = head_patterns(r1);
        if q.len() > 0 {
            lemma_head_patterns(r1, q.drop_first());
            lemma_head_match_filter(q.drop_first(), r1);
        }
        lemma_occurrences_prefixed(star(), rest, q);
        if r[0] == star() || r[0] == hash() {
            lemma_occurrences_add(hashed, prefixed(star(), rest), q);
        } else {
            lemma_occurrences_prefixed(r[0], rest, q);
            lemma_occurrences_add(hashed + prefixed(r[0], rest), prefixed(star(), rest), q);
            lemma_occurrences_add(hashed, prefixed(r[0], rest), q);
        }
    }
}

impl<C> PatternNode<C> {
    /// How many times `c` is subscribed, counted over the patterns of `qs`.
    pub closed spec fn sum_occ(self, qs: Seq<Seq<Seq<char>>>, c: C) -> nat
        decreases qs.len(),
    {
        if qs.len() == 0 {
            0
        } else {
            self.sum_occ(qs.drop_last(), c) + occurrences(self.lookup(qs.last()), c)
        }
    }

    /// The subscribers that a message on topic segments `r` reaches, in the
    /// order of the walk: first, through the `#` child, those whose pattern
    /// after the `#` accepts a tail of `r`; then, once `r` is used up, the
    /// subscribers of the node itself, or else what the child named after the
    /// next segment and the `*` child reach with the rest of `r`.
    pub closed spec fn collected(self, r: Seq<Seq<char>>) -> Seq<C>
        decreases r.len(), 2int,
    {
        (match self.multi_wildcard {
            Some(m) => m.tail_collected(r),
            None => Seq::empty(),
        }) + if r.len() == 0 {
            self.channels@
        } else {
            (if self.has_child(r[0]) {
                self.child(r[0]).collected(r.drop_first())
            } else {
                Seq::empty()
            }) + (match self.wildcard_child {
                Some(w) => w.collected(r.drop_first()),
                None => Seq::empty(),
            })
        }
    }

    /// The subscribers below this node whose remaining pattern accepts some
    /// tail of `r`, the longest tail first.
    pub closed spec fn tail_collected(self, r: Seq<Seq<char>>) -> Seq<C>
        decreases r.len(), 1int,
    {
        self.exact_collected(r) + if r.len() == 0 {
            Seq::empty()
        } else {
            self.tail_collected(r.drop_first())
        }
    }

    /// The subscribers below this node whose remaining pattern accepts `r`
    /// one for one; a `#` here is an ordinary segment.
    pub closed spec fn exact_collected(self, r: Seq<Seq<char>>) -> Seq<C>
        decreases r.len(), 0int,
    {
        if r.len() == 0 {
            self.channels@
        } else {
            (if self.has_child(r[0]) {
                self.child(r[0]).exact_collected(r.drop_first())
            } else {
                Seq::empty()
            }) + (match self.wildcard_child {
                Some(w) => w.exact_collected(r.drop_first()),
                None => Seq::empty(),
            }) + (if r[0] == hash() {
                match self.multi_wildcard {
                    Some(m) => m.exact_collected(r.drop_first()),
                    None => Seq::empty(),
                }
            } else {
                Seq::empty()
            })
        }
    }

    proof fn lemma_sum_add(self, a: Seq<Seq<Seq<char>>>, b: Seq<Seq<Seq<char>>>, c: C)
        ensures
            self.sum_occ(a + b, c) == self.sum_occ(a, c) + self.sum_occ(b, c),
        decreases b.len(),
    {
        if b.len() == 0 {
            assert(a + b =~= a);
        } else {
            assert((a + b).drop_last() =~= a + b.drop_last());
            assert((a + b).last() == b.last());
            self.lemma_sum_add(a, b.drop_last(), c);
        }
    }

    /// The count over patterns that begin with `x` is the count at the node
    /// that `x` leads to.
    proof fn lemma_sum_prefixed(self, x: Seq<char>, qs: Seq<Seq<Seq<char>>>, c: C)
        requires
            self.wf(),
        ensures
            x == star() ==> self.sum_occ(prefixed(x, qs), c) == match self.wildcard_child {
                Some(w) => w.sum_occ(qs, c),
                None => 0,
            },
            x == hash() ==> self.sum_occ(prefixed(x, qs), c) == match self.multi_wildcard {
                Some(m) => m.sum_occ(qs, c),
                None => 0,
            },
            x != star() && x != hash() && self.has_child(x) ==> self.sum_occ(prefixed(x, qs), c)
                == self.child(x).sum_occ(qs, c),
            x != star() && x != hash() && !self.has_child(x) ==> self.sum_occ(prefixed(x, qs), c)
                == 0,
        decreases qs.len(),
    {
        if qs.len() > 0 {
            assert(prefixed(x, qs).drop_last() =~= prefixed(x, qs.drop_last()));
            assert(prefixed(x, qs).last() == seq![x] + qs.last());
            self.lemma_sum_prefixed(x, qs.drop_last(), c);
            self.lemma_lookup_below(x, qs.last());
            assert(occurrences(Seq::<C>::empty(), c) == 0);
        }
    }

    proof fn lemma_exact_count(self, r: Seq<Seq<char>>, c: C)
        requires
            self.wf(),
        ensures
            occurrences(self.exact_collected(r), c) == self.sum_occ(exact_patterns(r), c),
        decreases r.len(), 0int,
    {
        lemma_wildcards_differ();
        if r.len() == 0 {
            let e = Seq::<Seq<char>>::empty();
            assert(seq![e].drop_last() =~= Seq::<Seq<Seq<char>>>::empty());
            assert(self.sum_occ(Seq::<Seq<Seq<char>>>::empty(), c) == 0);
            assert(self.lookup(e) == self.channels@);
        } else {
            let r1 = r.drop_first();
            let rest = exact_patterns(r1);
            let a = if self.has_child(r[0]) {
                self.child(r[0]).exact_collected(r1)
            } else {
                Seq::<C>::empty()
            };
            let b = match self.wildcard_child {
                Some(w) => w.exact_collected(r1),
                None => Seq::<C>::empty(),
            };
            let d = if r[0] == hash() {
                match self.multi_wildcard {
                    Some(m) => m.exact_collected(r1),
                    None => Seq::<C>::empty(),
                }
            } else {
                Seq::<C>::empty()
            };
            assert(self.exact_collected(r) == a + b + d);
            lemma_occurrences_add(a + b, d, c);
            lemma_occurrences_add(a, b, c);
            assert(occurrences(Seq::<C>::empty(), c) == 0);
            if self.has_child(r[0]) {
                let j = choose|i: int| 0 <= i < self.children@.len() && #[trigger] self.children@[i].0@ == r[0];
                self.lemma_child_at(j);
                self.child(r[0]).lemma_exact_count(r1, c);
            }
            match self.wildcard_child {
                Some(w) => {
                    w.lemma_exact_count(r1, c);
                },
                None => {},
            }
            if r[0] == hash() {
                match self.multi_wildcard {
                    Some(m) => {
                        m.lemma_exact_count(r1, c);
                    },
                    None => {},
                }
            }
            self.lemma_sum_prefixed(star(), rest, c);
            if r[0] != star() {
                self.lemma_sum_prefixed(r[0], rest, c);
                self.lemma_sum_add(prefixed(r[0], rest), prefixed(star(), rest), c);
            }
        }
    }

    proof fn lemma_tail_count(self, r: Seq<Seq<char>>, c: C)
        requires
            self.wf(),
        ensures
            occurrences(self.tail_collected(r), c) == self.sum_occ(tail_patterns(r), c),
        decreases r.len(), 1int,
    {
        self.lemma_exact_count(r, c);
        if r.len() == 0 {
            assert(self.tail_collected(r) =~= self.exact_collected(r) + Seq::<C>::empty());
            lemma_occurrences_add(self.exact_collected(r), Seq::<C>::empty(), c);
        } else {
            self.lemma_tail_count(r.drop_first(), c);
            lemma_occurrences_add(self.exact_collected(r), self.tail_collected(r.drop_first()), c);
            self.lemma_sum_add(exact_patterns(r), tail_patterns(r.drop_first()), c);
        }
    }

    /// How often a subscriber is reached: the number of copies of `c` that a
    /// message on topic segments `r` reaches is the number of times `c` is
    /// subscribed to a pattern that the replay filter matches against `r`.
    pub proof fn lemma_collected_count(self, r: Seq<Seq<char>>, c: C)
        requires
            self.wf(),
        ensures
            occurrences(self.collected(r), c) == self.sum_occ(head_patterns(r), c),
        decreases r.len(), 2int,
    {
        lemma_wildcards_differ();
        let hashed = prefixed(hash(), tail_patterns(r));
        let m = match self.multi_wildcard {
            Some(mw) => mw.tail_collected(r),
            None => Seq::<C>::empty(),
        };
        assert(occurrences(Seq::<C>::empty(), c) == 0);
        match self.multi_wildcard {
            Some(mw) => {
                mw.lemma_tail_count(r, c);
            },
            None => {},
        }
        self.lemma_sum_prefixed(hash(), tail_patterns(r), c);
        if r.len() == 0 {
            let e = Seq::<Seq<char>>::empty();
            assert(self.collected(r) == m + self.channels@);
            lemma_occurrences_add(m, self.channels@, c);
            self.lemma_sum_add(hashed, seq![e], c);
            assert(seq![e].drop_last() =~= Seq::<Seq<Seq<char>>>::empty());
            assert(self.sum_occ(Seq::<Seq<Seq<char>>>::empty(), c) == 0);
            assert(self.lookup(e) == self.channels@);
        } else {
            let r1 = r.drop_first();
            let rest = head_patterns(r1);
            let a = if self.has_child(r[0]) {
                self.child(r[0]).collected(r1)
            } else {
                Seq::<C>::empty()
            };
            let b = match self.wildcard_child {
                Some(w) => w.collected(r1),
                None => Seq::<C>::empty(),
            };
            assert(self.collected(r) == m + (a + b));
            lemma_occurrences_add(m, a + b, c);
            lemma_occurrences_add(a, b, c);
            if self.has_child(r[0]) {
                let j = choose|i: int| 0 <= i < self.children@.len() && #[trigger] self.children@[i].0@ == r[0];
                self.lemma_child_at(j);
                self.child(r[0]).lemma_collected_count(r1, c);
            }
            match self.wildcard_child {
                Some(w) => {
                    w.lemma_collected_count(r1, c);
                },
                None => {},
            }
            self.lemma_sum_prefixed(star(), rest, c);
            if r[0] == star() || r[0] == hash() {
                assert(!self.has_child(r[0]));
                self.lemma_sum_add(hashed, prefixed(star(), rest), c);
            } else {
                self.lemma_sum_prefixed(r[0], rest, c);
                self.lemma_sum_add(hashed + prefixed(r[0], rest), prefixed(star(), rest), c);
                self.lemma_sum_add(hashed, prefixed(r[0], rest), c);
            }
        }
    }
}

impl<C> PatternNode<C> {
    /// The subscribers that a message on the topic made of the segments of
    /// `segments` from position `i` on reaches: each subscriber of a pattern
    /// that the topic matches, once per subscription.
    pub fn collect_channels<'a>(&'a self, segments: &Vec<String>, i: usize) -> (r: Vec<&'a C>)
        requires
            self.wf(),
            i <= segments@.len(),
        ensures
            targets(r@) == self.collected(views(segments@).skip(i as int)),
        decreases segments@.len() - i, 2int,
    {
        let ghost t = views(segments@).skip(i as int);
        let mut result: Vec<&'a C> = Vec::new();
        proof {
            assert(targets(result@) =~= Seq::<C>::empty());
        }
        match &self.multi_wildcard {
            Some(mw) => {
                let sub = mw.collect_tails(segments, i);
                Self::append_targets(&mut result, sub);
            },
            None => {},
        }
        if i == segments.len() {
            Self::push_all(&mut result, &self.channels);
            proof {
                assert(t.len() == 0);
                assert(targets(result@) =~= self.collected(t));
            }
            return result;
        }
        let seg = &segments[i];
        proof {
            assert(t.len() > 0 && t[0] == seg@);
            assert(t.drop_first() =~= views(segments@).skip(i + 1));
        }
        match self.find_child(seg) {
            Some(j) => {
                proof {
                    self.lemma_child_at(j as int);
                }
                let sub = self.children[j].1.collect_channels(segments, i + 1);
                Self::append_targets(&mut result, sub);
            },
            None => {},
        }
        match &self.wildcard_child {
            Some(w) => {
                let sub = w.collect_channels(segments, i + 1);
                Self::append_targets(&mut result, sub);
            },
            None => {},
        }
        proof {
            assert(targets(result@) =~= self.collected(t));
        }
        result
    }

    /// The subscribers below this node whose remaining pattern accepts a
    /// tail of the segments from position `i` on.
    fn collect_tails<'a>(&'a self, segments: &Vec<String>, i: usize) -> (r: Vec<&'a C>)
        requires
            self.wf(),
            i <= segments@.len(),
        ensures
            targets(r@) == self.tail_collected(views(segments@).skip(i as int)),
        decreases segments@.len() - i, 1int,
    {
        let ghost t = views(segments@).skip(i as int);
        let mut result = self.collect_exact(segments, i);
        if i < segments.len() {
            proof {
                assert(t.drop_first() =~= views(segments@).skip(i + 1));
            }
            let sub = self.collect_tails(segments, i + 1);
            Self::append_targets(&mut result, sub);
        }
        proof {
            assert(targets(result@) =~= self.tail_collected(t));
        }
        result
    }

    /// The subscribers below this node whose remaining pattern accepts the
    /// segments from position `i` on one for one.
    fn collect_exact<'a>(&'a self, segments: &Vec<String>, i: usize) -> (r: Vec<&'a C>)
        requires
            self.wf(),
            i <= segments@.len(),
        ensures
            targets(r@) == self.exact_collected(views(segments@).skip(i as int)),
        decreases segments@.len() - i, 0int,
    {
        let ghost t = views(segments@).skip(i as int);
        let mut result: Vec<&'a C> = Vec::new();
        proof {
            assert(targets(result@) =~= Seq::<C>::empty());
        }
        if i == segments.len() {
            Self::push_all(&mut result, &self.channels);
            proof {
                assert(targets(result@) =~= self.exact_collected(t));
            }
            return result;
        }
        let seg = &segments[i];
        proof {
            assert(t.len() > 0 && t[0] == seg@);
            assert(t.drop_first() =~= views(segments@).skip(i + 1));
        }
        match self.find_child(seg) {
            Some(j) => {
                proof {
                    self.lemma_child_at(j as int);
                }
                let sub = self.children[j].1.collect_exact(segments, i + 1);
                Self::append_targets(&mut result, sub);
            },
            None => {},
        }
        match &self.wildcard_child {
            Some(w) => {
                let sub = w.collect_exact(segments, i + 1);
                Self::append_targets(&mut result, sub);
            },
            None => {},
        }
        if is_single_char(seg, '#') {
            match &self.multi_wildcard {
                Some(mw) => {
                    let sub = mw.collect_exact(segments, i + 1);
                    Self::append_targets(&mut result, sub);
                },
                None => {},
            }
        }
        proof {
            assert(targets(result@) =~= self.exact_collected(t));
        }
        result
    }
}

impl<C> PatternNode<C> {
    proof fn lemma_sum_single(self, qs: Seq<Seq<Seq<char>>>, p: Seq<Seq<char>>, c: C)
        requires
            forall|q: Seq<Seq<char>>| q != p ==> !(#[trigger] self.lookup(q)).contains(c),
        ensures
            self.sum_occ(qs, c) == occurrences(qs, p) * occurrences(self.lookup(p), c),
        decreases qs.len(),
    {
        if qs.len() > 0 {
            self.lemma_sum_single(qs.drop_last(), p, c);
            let k = occurrences(self.lookup(p), c);
            let a = occurrences(qs.drop_last(), p);
            if qs.last() == p {
                assert(occurrences(qs, p) == a + 1);
                assert((a + 1) * k == a * k + k) by (nonlinear_arith);
            } else {
                assert(occurrences(qs, p) == a);
                lemma_occurrences_contains(self.lookup(qs.last()), c);
            }
        } else {
            let k = occurrences(self.lookup(p), c);
            assert(0 * k == 0) by (nonlinear_arith);
        }
    }

    proof fn lemma_sum_grows(a: Self, b: Self, qs: Seq<Seq<Seq<char>>>, p: Seq<Seq<char>>, x: C, c: C)
        requires
            forall|q: Seq<Seq<char>>| q != p ==> #[trigger] a.lookup(q) == b.lookup(q),
            a.lookup(p) == b.lookup(p).push(x),
        ensures
            a.sum_occ(qs, c) == b.sum_occ(qs, c) + if x == c { occurrences(qs, p) } else { 0 },
        decreases qs.len(),
    {
        if qs.len() > 0 {
            Self::lemma_sum_grows(a, b, qs.drop_last(), p, x, c);
            if qs.last() == p {
                assert(a.lookup(p).drop_last() =~= b.lookup(p));
            } else {
                assert(a.lookup(qs.last()) == b.lookup(qs.last()));
            }
        }
    }

    proof fn lemma_sum_positive(self, qs: Seq<Seq<Seq<char>>>, c: C)
        ensures
            self.sum_occ(qs, c) > 0 <==> exists|q: Seq<Seq<char>>|
                qs.contains(q) && #[trigger] self.lookup(q).contains(c),
        decreases qs.len(),
    {
        if qs.len() > 0 {
            let d = qs.drop_last();
            self.lemma_sum_positive(d, c);
            lemma_occurrences_contains(self.lookup(qs.last()), c);
            if self.sum_occ(qs, c) > 0 {
                if self.sum_occ(d, c) > 0 {
                    let q = choose|q: Seq<Seq<char>>| d.contains(q) && #[trigger] self.lookup(q).contains(c);
                    let k = choose|k: int| 0 <= k < d.len() && d[k] == q;
                    assert(qs[k] == q);
                } else {
                    assert(qs[qs.len() - 1] == qs.last());
                    assert(qs.contains(qs.last()));
                }
            }
            if exists|q: Seq<Seq<char>>| qs.contains(q) && #[trigger] self.lookup(q).contains(c) {
                let q = choose|q: Seq<Seq<char>>| qs.contains(q) && #[trigger] self.lookup(q).contains(c);
                let k = choose|k: int| 0 <= k < qs.len() && qs[k] == q;
                if k < qs.len() - 1 {
                    assert(d[k] == q);
                    assert(d.contains(q));
                }
            }
        } else {
            if exists|q: Seq<Seq<char>>| qs.contains(q) && #[trigger] self.lookup(q).contains(c) {
                let q = choose|q: Seq<Seq<char>>| qs.contains(q) && #[trigger] self.lookup(q).contains(c);
                assert(qs.contains(q));
            }
        }
    }

    /// Who receives a message: a subscriber is reached by topic segments `r`
    /// exactly when it is subscribed to a pattern that the replay filter
    /// matches against `r`.
    pub proof fn lemma_collected_members(self, r: Seq<Seq<char>>)
        requires
            self.wf(),
        ensures
            forall|c: C|
                #[trigger] self.collected(r).contains(c) <==> exists|q: Seq<Seq<char>>|
                    #[trigger] self.lookup(q).contains(c) && segments_match(r, q),
    {
        assert forall|c: C| #[trigger] self.collected(r).contains(c) <==> exists|q: Seq<Seq<char>>|
            #[trigger] self.lookup(q).contains(c) && segments_match(r, q) by {
            self.lemma_collected_count(r, c);
            lemma_occurrences_contains(self.collected(r), c);
            self.lemma_sum_positive(head_patterns(r), c);
            if self.collected(r).contains(c) {
                let q = choose|q: Seq<Seq<char>>| head_patterns(r).contains(q) && #[trigger] self.lookup(q).contains(c);
                lemma_occurrences_contains(head_patterns(r), q);
                lemma_head_patterns(r, q);
            }
            if exists|q: Seq<Seq<char>>| #[trigger] self.lookup(q).contains(c) && segments_match(r, q) {
                let q = choose|q: Seq<Seq<char>>| #[trigger] self.lookup(q).contains(c) && segments_match(r, q);
                lemma_occurrences_contains(head_patterns(r), q);
                lemma_head_patterns(r, q);
            }
        }
    }

    /// A subscriber that is subscribed to pattern `p` alone is reached by
    /// topic segments `r` as many times as it is subscribed there when the
    /// replay filter matches `p` against `r`, and not at all otherwise.
    pub proof fn lemma_collected_once(self, r: Seq<Seq<char>>, p: Seq<Seq<char>>, c: C)
        requires
            self.wf(),
            forall|q: Seq<Seq<char>>| q != p ==> !(#[trigger] self.lookup(q)).contains(c),
        ensures
            occurrences(self.collected(r), c) == if segments_match(r, p) {
                occurrences(self.lookup(p), c)
            } else {
                0
            },
    {
        self.lemma_collected_count(r, c);
        self.lemma_sum_single(head_patterns(r), p, c);
        lemma_head_patterns(r, p);
    }

    /// Subscribing adds and never takes away: when `a` is `b` with `x`
    /// subscribed once more to pattern `p`, a message on topic segments `r`
    /// reaches every subscriber as often as in `b`, and `x` once more when the
    /// replay filter matches `p` against `r`.
    pub proof fn lemma_subscription_adds(a: Self, b: Self, r: Seq<Seq<char>>, p: Seq<Seq<char>>, x: C)
        requires
            a.wf(),
            b.wf(),
            forall|q: Seq<Seq<char>>| q != p ==> #[trigger] a.lookup(q) == b.lookup(q),
            a.lookup(p) == b.lookup(p).push(x),
        ensures
            forall|c: C|
                #[trigger] occurrences(a.collected(r), c) == occurrences(b.collected(r), c) + if c == x
                    && segments_match(r, p) {
                    1nat
                } else {
                    0nat
                },
    {
        lemma_head_patterns(r, p);
        assert forall|c: C|
            #[trigger] occurrences(a.collected(r), c) == occurrences(b.collected(r), c) + if c == x
                && segments_match(r, p) {
                1nat
            } else {
                0nat
            } by {
            a.lemma_collected_count(r, c);
            b.lemma_collected_count(r, c);
            Self::lemma_sum_grows(a, b, head_patterns(r), p, x, c);
        }
    }
}

} // verus!
