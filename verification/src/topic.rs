use vstd::prelude::*;
use vstd::string::*;

verus! {

/// The segments of a dotted name, as `str::split('.')` yields them:
/// an empty name has one empty segment, and two adjacent dots give an
/// empty segment between them.
pub open spec fn split_dots(s: Seq<char>) -> Seq<Seq<char>>
    decreases s.len(),
{
    if s.len() == 0 {
        seq![Seq::<char>::empty()]
    } else {
        let r = split_dots(s.drop_last());
        if s.last() == '.' {
            r.push(Seq::<char>::empty())
        } else {
            r.update(r.len() - 1, r.last().push(s.last()))
        }
    }
}

/// The character sequences of a list of strings.
pub open spec fn views(v: Seq<String>) -> Seq<Seq<char>> {
    v.map_values(|x: String| x@)
}

pub proof fn lemma_split_dots_nonempty(s: Seq<char>)
    ensures
        split_dots(s).len() >= 1,
    decreases s.len(),
{
    if s.len() > 0 {
        lemma_split_dots_nonempty(s.drop_last());
    }
}

/// Splits a dotted topic or pattern into its segments.
pub fn split_segments(s: &str) -> (segs: Vec<String>)
    ensures
        views(segs@) == split_dots(s@),
{
    let n = s.unicode_len();
    let mut segs: Vec<String> = Vec::new();
    let mut start: usize = 0;
    let mut i: usize = 0;
    proof {
        assert(s@.take(0) =~= Seq::<char>::empty());
        assert(views(segs@).push(s@.subrange(0, 0)) =~= seq![Seq::<char>::empty()]);
    }
    while i < n
        invariant
            n == s@.len(),
            start <= i <= n,
            split_dots(s@.take(i as int)) == views(segs@).push(s@.subrange(start as int, i as int)),
        decreases n - i,
    {
        let c = s.get_char(i);
        proof {
            assert(s@.take(i + 1).drop_last() =~= s@.take(i as int));
            assert(s@.take(i + 1).last() == c);
            lemma_split_dots_nonempty(s@.take(i as int));
        }
        if c == '.' {
            let ghost before = segs@;
            let seg = String::from_str(s.substring_char(start, i));
            segs.push(seg);
            proof {
                assert(views(segs@) =~= views(before).push(s@.subrange(start as int, i as int)));
            }
            start = i + 1;
            proof {
                assert(s@.subrange(start as int, start as int) =~= Seq::<char>::empty());
                assert(split_dots(s@.take(i + 1)) =~= views(segs@).push(s@.subrange(start as int, i + 1)));
            }
        } else {
            proof {
                assert(s@.subrange(start as int, i + 1) =~= s@.subrange(start as int, i as int).push(c));
                assert(split_dots(s@.take(i + 1)) =~= views(segs@).push(s@.subrange(start as int, i + 1)));
            }
        }
        i = i + 1;
    }
    let last = String::from_str(s.substring_char(start, n));
    let ghost before = segs@;
    segs.push(last);
    proof {
        assert(views(segs@) =~= views(before).push(s@.subrange(start as int, n as int)));
        assert(s@.take(n as int) =~= s@);
        assert(views(segs@) =~= split_dots(s@));
    }
    segs
}


/// The single-level wildcard segment `*`.
pub open spec fn star() -> Seq<char> {
    seq!['*']
}

/// The multi-level wildcard segment `#`.
pub open spec fn hash() -> Seq<char> {
    seq!['#']
}

/// A pattern segment accepts a topic segment when it is `*` or the same text.
pub open spec fn segment_matches(p: Seq<char>, t: Seq<char>) -> bool {
    p == star() || p == t
}

/// `k` is the position of the first `#` segment of `p`.
pub open spec fn is_first_hash(p: Seq<Seq<char>>, k: int) -> bool {
    &&& 0 <= k < p.len()
    &&& p[k] == hash()
    &&& forall|j: int| 0 <= j < k ==> p[j] != hash()
}

/// Matching of topic segments `t` against pattern segments `p` by the
/// storage replay filter.  Without a `#`, the lengths agree and every
/// segment matches.  With one, the segments before the first `#` match the
/// head of the topic, those after it match the tail of the topic, and the
/// topic is long enough to hold both.
pub open spec fn segments_match(t: Seq<Seq<char>>, p: Seq<Seq<char>>) -> bool {
    if p.contains(hash()) {
        let k = choose|k: int| is_first_hash(p, k);
        let suffix = p.len() - k - 1;
        &&& t.len() >= p.len() - 1
        &&& forall|i: int| 0 <= i < k ==> segment_matches(p[i], t[i])
        &&& forall|j: int|
            0 <= j < suffix ==> #[trigger] segment_matches(p[k + 1 + j], t[t.len() - suffix + j])
    } else {
        &&& t.len() == p.len()
        &&& forall|i: int| 0 <= i < p.len() ==> segment_matches(p[i], t[i])
    }
}

/// A dotted topic matches a dotted pattern.
pub open spec fn topic_matches(topic: Seq<char>, pattern: Seq<char>) -> bool {
    segments_match(split_dots(topic), split_dots(pattern))
}

/// Whether a segment is exactly the one-character text `c`.
pub fn is_single_char(s: &String, c: char) -> (r: bool)
    ensures
        r == (s@ == seq![c]),
{
    let t = s.as_str();
    if t.unicode_len() == 1 {
        let d = t.get_char(0);
        proof {
            if d == c {
                assert(s@ =~= seq![c]);
            }
        }
        d == c
    } else {
        false
    }
}

/// Whether the pattern segment `p` accepts the topic segment `t`.
pub fn segment_accepts(p: &String, t: &String) -> (r: bool)
    ensures
        r == segment_matches(p@, t@),
{
    is_single_char(p, '*') || p.eq(t)
}

/// The position of the first `#` segment, if there is one.
pub fn first_hash(p: &Vec<String>) -> (r: Option<usize>)
    ensures
        match r {
            Some(k) => is_first_hash(views(p@), k as int),
            None => !views(p@).contains(hash()),
        },
{
    let mut k: usize = 0;
    while k < p.len()
        invariant
            k <= p.len(),
            forall|j: int| 0 <= j < k ==> views(p@)[j] != hash(),
        decreases p.len() - k,
    {
        if is_single_char(&p[k], '#') {
            return Some(k);
        }
        k = k + 1;
    }
    proof {
        assert forall|j: int| 0 <= j < views(p@).len() implies views(p@)[j] != hash() by {}
    }
    None
}

/// Whether `topic` matches `pattern`, where `*` stands for one segment and
/// the first `#` for any number of segments between a matching head and a
/// matching tail.
#[verifier::loop_isolation(false)]
pub fn pattern_matches(topic: &str, pattern: &str) -> (r: bool)
    ensures
        r == topic_matches(topic@, pattern@),
{
    let ts = split_segments(topic);
    let ps = split_segments(pattern);
    let ghost t = views(ts@);
    let ghost p = views(ps@);
    match first_hash(&ps) {
        Some(k) => {
            proof {
                lemma_first_hash_unique(p, k as int);
            }
            let suffix = ps.len() - k - 1;
            if ts.len() < k + suffix {
                return false;
            }
            let mut i: usize = 0;
            while i < k
                invariant
                    i <= k,
                    k < ps.len(),
                    k <= ts.len(),
                    p == views(ps@),
                    t == views(ts@),
                    forall|j: int| 0 <= j < i ==> segment_matches(p[j], t[j]),
                decreases k - i,
            {
                if !segment_accepts(&ps[i], &ts[i]) {
                    proof {
                        assert(!segment_matches(p[i as int], t[i as int]));
                    }
                    return false;
                }
                i = i + 1;
            }
            let mut j: usize = 0;
            let tl = ts.len();
            while j < suffix
                invariant
                    j <= suffix,
                    suffix == ps.len() - k - 1,
                    tl == ts.len(),
                    k + suffix <= tl,
                    p == views(ps@),
                    t == views(ts@),
                    forall|m: int|
                        0 <= m < j ==> #[trigger] segment_matches(p[k + 1 + m], t[tl - suffix + m]),
                decreases suffix - j,
            {
                if !segment_accepts(&ps[k + 1 + j], &ts[tl - suffix + j]) {
                    proof {
                        let jj = j as int;
                        assert(!segment_matches(p[k + 1 + jj], t[t.len() - suffix + jj]));
                    }
                    return false;
                }
                j = j + 1;
            }
            true
        },
        None => {
            if ps.len() != ts.len() {
                return false;
            }
            let mut i: usize = 0;
            while i < ps.len()
                invariant
                    i <= ps.len(),
                    ps.len() == ts.len(),
                    p == views(ps@),
                    t == views(ts@),
                    forall|j: int| 0 <= j < i ==> segment_matches(p[j], t[j]),
                decreases ps.len() - i,
            {
                if !segment_accepts(&ps[i], &ts[i]) {
                    proof {
                        assert(!segment_matches(p[i as int], t[i as int]));
                    }
                    return false;
                }
                i = i + 1;
            }
            true
        },
    }
}

/// Pattern segments `q` accept topic segments `r` one for one.
pub open spec fn exact_match(q: Seq<Seq<char>>, r: Seq<Seq<char>>) -> bool {
    &&& q.len() == r.len()
    &&& forall|j: int| 0 <= j < q.len() ==> #[trigger] segment_matches(q[j], r[j])
}

/// Pattern segments `q` accept the last `q.len()` segments of `r`.
pub open spec fn tail_match(q: Seq<Seq<char>>, r: Seq<Seq<char>>) -> bool {
    &&& q.len() <= r.len()
    &&& forall|j: int| 0 <= j < q.len() ==> #[trigger] segment_matches(q[j], r[r.len() - q.len() + j])
}

/// Matching read from the left: segments before the first `#` accept the
/// topic's segments one for one, and the segments after it accept the
/// topic's last segments.
pub open spec fn head_match(q: Seq<Seq<char>>, r: Seq<Seq<char>>) -> bool
    decreases q.len(),
{
    if q.len() == 0 {
        r.len() == 0
    } else if q[0] == hash() {
        tail_match(q.drop_first(), r)
    } else {
        r.len() > 0 && segment_matches(q[0], r[0]) && head_match(q.drop_first(), r.drop_first())
    }
}

/// Every topic matches itself read as a pattern.
pub proof fn lemma_topic_matches_itself(t: Seq<char>)
    ensures
        topic_matches(t, t),
{
    let s = split_dots(t);
    if s.contains(hash()) {
        lemma_first_hash_exists(s);
        let k = choose|k: int| is_first_hash(s, k);
        let suffix = s.len() - k - 1;
        assert forall|j: int| 0 <= j < suffix implies #[trigger] segment_matches(s[k + 1 + j], s[s.len() - suffix + j]) by {
            assert(s.len() - suffix + j == k + 1 + j);
        }
    }
}

proof fn lemma_first_hash_unique(p: Seq<Seq<char>>, k: int)
    requires
        is_first_hash(p, k),
    ensures
        p.contains(hash()),
        (choose|kk: int| is_first_hash(p, kk)) == k,
{
    assert(p[k] == hash());
    let kk = choose|kk: int| is_first_hash(p, kk);
    assert(is_first_hash(p, kk));
    if kk < k {
        assert(p[kk] == hash());
    } else if kk > k {
        assert(p[k] == hash());
    }
}

/// Reading a pattern from the left gives the replay filter's matching.
pub proof fn lemma_head_match_filter(q: Seq<Seq<char>>, r: Seq<Seq<char>>)
    ensures
        head_match(q, r) == segments_match(r, q),
    decreases q.len(),
{
    if q.len() == 0 {
        assert(!q.contains(hash()));
    } else if q[0] == hash() {
        lemma_first_hash_unique(q, 0);
        let k = choose|kk: int| is_first_hash(q, kk);
        assert(k == 0);
        let q1 = q.drop_first();
        let suffix = q.len() - k - 1;
        assert(suffix == q1.len());
        if tail_match(q1, r) {
            assert forall|j: int| 0 <= j < suffix implies #[trigger] segment_matches(q[k + 1 + j], r[r.len() - suffix + j]) by {
                assert(q[k + 1 + j] == q1[j]);
                assert(segment_matches(q1[j], r[r.len() - q1.len() + j]));
            }
        }
        if segments_match(r, q) {
            assert forall|j: int| 0 <= j < q1.len() implies #[trigger] segment_matches(q1[j], r[r.len() - q1.len() + j]) by {
                assert(q[k + 1 + j] == q1[j]);
                assert(segment_matches(q[k + 1 + j], r[r.len() - suffix + j]));
            }
        }
    } else {
        let q1 = q.drop_first();
        let r1 = r.drop_first();
        lemma_head_match_filter(q1, r1);
        if q.contains(hash()) {
            lemma_first_hash_exists(q);
            let k = choose|k: int| is_first_hash(q, k);
            lemma_first_hash_unique(q, k);
            assert(k >= 1);
            assert(is_first_hash(q1, k - 1)) by {
                assert(q1[k - 1] == q[k]);
                assert forall|j: int| 0 <= j < k - 1 implies q1[j] != hash() by {
                    assert(q1[j] == q[j + 1]);
                }
            }
            lemma_first_hash_unique(q1, k - 1);
            let suffix = q.len() - k - 1;
            if head_match(q, r) {
                assert forall|i: int| 0 <= i < k implies segment_matches(q[i], r[i]) by {
                    if i > 0 {
                        assert(q1[i - 1] == q[i]);
                        assert(r1[i - 1] == r[i]);
                    }
                }
                assert forall|j: int| 0 <= j < suffix implies #[trigger] segment_matches(q[k + 1 + j], r[r.len() - suffix + j]) by {
                    assert(q1[(k - 1) + 1 + j] == q[k + 1 + j]);
                    assert(r1[r1.len() - suffix + j] == r[r.len() - suffix + j]);
                    assert(segment_matches(q1[(k - 1) + 1 + j], r1[r1.len() - suffix + j]));
                }
            }
            if segments_match(r, q) {
                assert(r.len() > 0);
                assert(segment_matches(q[0], r[0]));
                assert forall|i: int| 0 <= i < k - 1 implies segment_matches(q1[i], r1[i]) by {
                    assert(q1[i] == q[i + 1]);
                    assert(r1[i] == r[i + 1]);
                    assert(segment_matches(q[i + 1], r[i + 1]));
                }
                assert forall|j: int| 0 <= j < suffix implies #[trigger] segment_matches(q1[(k - 1) + 1 + j], r1[r1.len() - suffix + j]) by {
                    assert(q1[(k - 1) + 1 + j] == q[k + 1 + j]);
                    assert(r1[r1.len() - suffix + j] == r[r.len() - suffix + j]);
                    assert(segment_matches(q[k + 1 + j], r[r.len() - suffix + j]));
                }
                assert(segments_match(r1, q1));
            }
        } else {
            assert(!q1.contains(hash())) by {
                if q1.contains(hash()) {
                    let k = choose|k: int| 0 <= k < q1.len() && q1[k] == hash();
                    assert(q[k + 1] == hash());
                }
            }
            if head_match(q, r) {
                assert forall|i: int| 0 <= i < q.len() implies segment_matches(q[i], r[i]) by {
                    if i > 0 {
                        assert(q1[i - 1] == q[i]);
                        assert(r1[i - 1] == r[i]);
                    }
                }
            }
            if segments_match(r, q) {
                assert forall|i: int| 0 <= i < q1.len() implies segment_matches(q1[i], r1[i]) by {
                    assert(q1[i] == q[i + 1]);
                    assert(r1[i] == r[i + 1]);
                    assert(segment_matches(q[i + 1], r[i + 1]));
                }
            }
        }
    }
}

proof fn lemma_first_hash_exists(p: Seq<Seq<char>>)
    requires
        p.contains(hash()),
    ensures
        exists|k: int| is_first_hash(p, k),
    decreases p.len(),
{
    if p[0] == hash() {
        assert(is_first_hash(p, 0));
    } else {
        let p1 = p.drop_first();
        let k = choose|k: int| 0 <= k < p.len() && p[k] == hash();
        assert(p1[k - 1] == hash());
        lemma_first_hash_exists(p1);
        let k1 = choose|k1: int| is_first_hash(p1, k1);
        assert(is_first_hash(p, k1 + 1)) by {
            assert(p[k1 + 1] == p1[k1]);
            assert forall|j: int| 0 <= j < k1 + 1 implies p[j] != hash() by {
                if j > 0 {
                    assert(p[j] == p1[j - 1]);
                }
            }
        }
    }
}

} // verus!
