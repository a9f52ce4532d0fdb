//! Event identifiers: which pulls an event stems from.
//!
//! An identifier is a finite set of pull coordinates. It is stored as a
//! strictly ascending vector, so that two identifiers holding the same set
//! are stored identically and combining them does not depend on the order
//! in which a batch was put together.

use vstd::prelude::*;
use vstd::std_specs::cmp::PartialEqSpec;

verus! {

/// One pull of one stream of one source.
#[derive(Clone, Copy, Debug, PartialEq, Eq, Structural)]
pub struct PullId {
    pub source_id: u64,
    pub stream_id: u64,
    pub pull_id: u64,
}

/// Lexicographic order on pull coordinates: by source, then stream, then pull.
pub open spec fn pull_lt(a: PullId, b: PullId) -> bool {
    a.source_id < b.source_id || (a.source_id == b.source_id && (a.stream_id < b.stream_id || (
    a.stream_id == b.stream_id && a.pull_id < b.pull_id)))
}

/// A sequence is strictly ascending: sorted, and nothing occurs twice.
pub open spec fn ascending(s: Seq<PullId>) -> bool {
    forall|i: int, j: int| 0 <= i < j < s.len() ==> pull_lt(#[trigger] s[i], #[trigger] s[j])
}

/// `set` holds a pull of the given stream.
pub open spec fn has_stream(set: Set<PullId>, source_id: u64, stream_id: u64) -> bool {
    exists|p: PullId| #[trigger] set.contains(p) && p.source_id == source_id && p.stream_id == stream_id
}

/// `m` is the highest pull of the given stream in `set`.
pub open spec fn is_max_pull(set: Set<PullId>, source_id: u64, stream_id: u64, m: u64) -> bool {
    &&& set.contains(PullId { source_id, stream_id, pull_id: m })
    &&& forall|p: PullId| #[trigger]
        set.contains(p) && p.source_id == source_id && p.stream_id == stream_id ==> p.pull_id <= m
}

/// `m` is the lowest pull of the given stream in `set`.
pub open spec fn is_min_pull(set: Set<PullId>, source_id: u64, stream_id: u64, m: u64) -> bool {
    &&& set.contains(PullId { source_id, stream_id, pull_id: m })
    &&& forall|p: PullId| #[trigger]
        set.contains(p) && p.source_id == source_id && p.stream_id == stream_id ==> m <= p.pull_id
}

/// `set` holds, for the stream of `p`, a pull that is not above `p` and one
/// that is not below it.
pub open spec fn covers(set: Set<PullId>, p: PullId) -> bool {
    exists|lo: PullId, hi: PullId|
        #![trigger set.contains(lo), set.contains(hi)]
        set.contains(lo) && set.contains(hi) && lo.source_id == p.source_id && hi.source_id
            == p.source_id && lo.stream_id == p.stream_id && hi.stream_id == p.stream_id
            && lo.pull_id <= p.pull_id <= hi.pull_id
}

/// `a` tracks `b`: for every stream that `b` names, the range of pulls that
/// `a` holds of that stream encloses every pull that `b` holds of it.
pub open spec fn tracks(a: Set<PullId>, b: Set<PullId>) -> bool {
    forall|p: PullId| #[trigger] b.contains(p) ==> covers(a, p)
}

/// Compares two pull coordinates in the lexicographic order.
pub fn pull_less(a: &PullId, b: &PullId) -> (r: bool)
    ensures
        r == pull_lt(*a, *b),
{
    if a.source_id != b.source_id {
        a.source_id < b.source_id
    } else if a.stream_id != b.stream_id {
        a.stream_id < b.stream_id
    } else {
        a.pull_id < b.pull_id
    }
}

/// The identifier of an event.
#[derive(Debug)]
pub struct EventId {
    ids: Vec<PullId>,
}

impl View for EventId {
    type V = Set<PullId>;

    /// The pulls that the event stems from.
    open spec fn view(&self) -> Set<PullId> {
        self.triples().to_set()
    }
}

impl EventId {
    /// The pulls in storage order.
    pub closed spec fn triples(&self) -> Seq<PullId> {
        self.ids@
    }

    /// The stored pulls are strictly ascending.
    pub open spec fn wf(&self) -> bool {
        ascending(self.triples())
    }

    /// The identifier of an event that stems from a single pull.
    pub fn new(source_id: u64, stream_id: u64, pull_id: u64) -> (id: EventId)
        ensures
            id.wf(),
            id.triples() == seq![PullId { source_id, stream_id, pull_id }],
            id@ == set![PullId { source_id, stream_id, pull_id }],
    {
        let mut ids: Vec<PullId> = Vec::new();
        ids.push(PullId { source_id, stream_id, pull_id });
        let id = EventId { ids };
        proof {
            let p = PullId { source_id, stream_id, pull_id };
            assert(id.triples() =~= seq![p]);
            assert(id.triples()[0] == p);
            assert(id@ =~= set![p]) by {
                assert forall|x: PullId| id@.contains(x) <==> set![p].contains(x) by {
                    if x == p {
                        assert(id.triples()[0] == x);
                    }
                }
            }
        }
        id
    }

    /// The number of pulls that the event stems from.
    pub fn len(&self) -> (n: usize)
        ensures
            n == self.triples().len(),
    {
        self.ids.len()
    }

    /// The pull stored at place `i`.
    pub fn get(&self, i: usize) -> (p: PullId)
        requires
            i < self.triples().len(),
        ensures
            p == self.triples()[i as int],
    {
        self.ids[i]
    }

    /// A copy of the stored pulls, ascending.
    pub fn to_vec(&self) -> (v: Vec<PullId>)
        ensures
            v@ == self.triples(),
    {
        let mut v: Vec<PullId> = Vec::new();
        let mut i: usize = 0;
        while i < self.ids.len()
            invariant
                i <= self.ids.len(),
                v@ == self.ids@.take(i as int),
            decreases self.ids.len() - i,
        {
            v.push(self.ids[i]);
            i += 1;
            assert(v@ =~= self.ids@.take(i as int));
        }
        assert(self.ids@.take(i as int) =~= self.ids@);
        v
    }
}

impl EventId {
    /// The identifier of an event put together from two: it stems from the
    /// pulls of both.
    pub fn merge(&self, other: &EventId) -> (id: EventId)
        requires
            self.wf(),
            other.wf(),
        ensures
            id.wf(),
            id@ == self@.union(other@),
            is_merge(id, *self, *other),
    {
        let mut out: Vec<PullId> = Vec::new();
        let mut i: usize = 0;
        let mut j: usize = 0;
        let ghost a = self.ids@;
        let ghost b = other.ids@;
        while i < self.ids.len() || j < other.ids.len()
            invariant
                a == self.ids@,
                b == other.ids@,
                ascending(a),
                ascending(b),
                i <= a.len(),
                j <= b.len(),
                ascending(out@),
                forall|k: int| 0 <= k < out@.len() && i < a.len() ==> pull_lt(#[trigger] out@[k], a[i as int]),
                forall|k: int| 0 <= k < out@.len() && j < b.len() ==> pull_lt(#[trigger] out@[k], b[j as int]),
                forall|x: PullId| #[trigger]
                    out@.contains(x) <==> a.take(i as int).contains(x) || b.take(j as int).contains(x),
            decreases a.len() - i + b.len() - j,
        {
            let ghost before = out@;
            let ghost i0 = i as int;
            let ghost j0 = j as int;
            let next: PullId;
            if j >= other.ids.len() {
                next = self.ids[i];
                i += 1;
            } else if i >= self.ids.len() {
                next = other.ids[j];
                j += 1;
            } else if pull_less(&self.ids[i], &other.ids[j]) {
                next = self.ids[i];
                i += 1;
            } else if pull_less(&other.ids[j], &self.ids[i]) {
                next = other.ids[j];
                j += 1;
            } else {
                next = self.ids[i];
                assert(self.ids[i as int] == other.ids[j as int]);
                i += 1;
                j += 1;
            }
            out.push(next);
            proof {
                assert forall|x: PullId| #[trigger]
                    out@.contains(x) <==> a.take(i as int).contains(x) || b.take(
                        j as int,
                    ).contains(x) by {
                    lemma_push_contains(before, next, x);
                    if i as int > i0 {
                        lemma_take_contains(a, i0, x);
                    }
                    if j as int > j0 {
                        lemma_take_contains(b, j0, x);
                    }
                }
            }
        }
        let id = EventId { ids: out };
        proof {
            assert(a.take(i as int) =~= a);
            assert(b.take(j as int) =~= b);
            assert(id@ =~= self@.union(other@));
        }
        id
    }

    /// The highest pull of the given stream that the event stems from, if it
    /// stems from any.
    pub fn max_pull_id(&self, source_id: u64, stream_id: u64) -> (r: Option<u64>)
        ensures
            match r {
                Some(m) => is_max_pull(self@, source_id, stream_id, m),
                None => !has_stream(self@, source_id, stream_id),
            },
    {
        let mut best: Option<u64> = None;
        let mut i: usize = 0;
        while i < self.ids.len()
            invariant
                i <= self.ids.len(),
                match best {
                    Some(m) => is_max_pull(self.ids@.take(i as int).to_set(), source_id, stream_id, m),
                    None => !has_stream(self.ids@.take(i as int).to_set(), source_id, stream_id),
                },
            decreases self.ids.len() - i,
        {
            let p = self.ids[i];
            let ghost prev = self.ids@.take(i as int);
            let ghost cur = self.ids@.take(i + 1);
            proof {
                assert forall|x: PullId| cur.to_set().contains(x) <==> prev.to_set().contains(x) || x
                    == p by {
                    lemma_take_contains(self.ids@, i as int, x);
                }
            }
            if p.source_id == source_id && p.stream_id == stream_id {
                match best {
                    Some(m) => {
                        if p.pull_id > m {
                            best = Some(p.pull_id);
                        }
                    },
                    None => {
                        best = Some(p.pull_id);
                        assert forall|x: PullId| #[trigger]
                            cur.to_set().contains(x) && x.source_id == source_id && x.stream_id
                                == stream_id implies x.pull_id <= p.pull_id by {
                            if x != p {
                                assert(prev.to_set().contains(x));
                            }
                        }
                    },
                }
            } else {
                if best.is_none() {
                    assert forall|x: PullId| #[trigger]
                        cur.to_set().contains(x) implies !(x.source_id == source_id && x.stream_id
                        == stream_id) by {
                        if x != p {
                            assert(prev.to_set().contains(x));
                        }
                    }
                }
            }
            i += 1;
        }
        assert(self.ids@.take(i as int) =~= self.ids@);
        best
    }

    /// The lowest pull of the given stream that the event stems from, if it
    /// stems from any.
    pub fn min_pull_id(&self, source_id: u64, stream_id: u64) -> (r: Option<u64>)
        ensures
            match r {
                Some(m) => is_min_pull(self@, source_id, stream_id, m),
                None => !has_stream(self@, source_id, stream_id),
            },
    {
        let mut best: Option<u64> = None;
        let mut i: usize = 0;
        while i < self.ids.len()
            invariant
                i <= self.ids.len(),
                match best {
                    Some(m) => is_min_pull(self.ids@.take(i as int).to_set(), source_id, stream_id, m),
                    None => !has_stream(self.ids@.take(i as int).to_set(), source_id, stream_id),
                },
            decreases self.ids.len() - i,
        {
            let p = self.ids[i];
            let ghost prev = self.ids@.take(i as int);
            let ghost cur = self.ids@.take(i + 1);
            proof {
                assert forall|x: PullId| cur.to_set().contains(x) <==> prev.to_set().contains(x) || x
                    == p by {
                    lemma_take_contains(self.ids@, i as int, x);
                }
            }
            if p.source_id == source_id && p.stream_id == stream_id {
                match best {
                    Some(m) => {
                        if p.pull_id < m {
                            best = Some(p.pull_id);
                        }
                    },
                    None => {
                        best = Some(p.pull_id);
                        assert forall|x: PullId| #[trigger]
                            cur.to_set().contains(x) && x.source_id == source_id && x.stream_id
                                == stream_id implies p.pull_id <= x.pull_id by {
                            if x != p {
                                assert(prev.to_set().contains(x));
                            }
                        }
                    },
                }
            } else {
                if best.is_none() {
                    assert forall|x: PullId| #[trigger]
                        cur.to_set().contains(x) implies !(x.source_id == source_id && x.stream_id
                        == stream_id) by {
                        if x != p {
                            assert(prev.to_set().contains(x));
                        }
                    }
                }
            }
            i += 1;
        }
        assert(self.ids@.take(i as int) =~= self.ids@);
        best
    }

    /// Whether this identifier tracks `other`: whether, for every stream that
    /// `other` names, the range of pulls held here encloses those of `other`.
    pub fn is_tracking(&self, other: &EventId) -> (r: bool)
        ensures
            r == tracks(self@, other@),
    {
        let mut i: usize = 0;
        while i < other.ids.len()
            invariant
                i <= other.ids.len(),
                forall|k: int| 0 <= k < i ==> covers(self@, #[trigger] other.ids@[k]),
            decreases other.ids.len() - i,
        {
            let p = other.ids[i];
            let lo = self.min_pull_id(p.source_id, p.stream_id);
            let hi = self.max_pull_id(p.source_id, p.stream_id);
            let inside = match (lo, hi) {
                (Some(l), Some(h)) => l <= p.pull_id && p.pull_id <= h,
                _ => false,
            };
            if !inside {
                proof {
                    assert(other@.contains(p)) by {
                        assert(other.triples()[i as int] == p);
                    }
                    if covers(self@, p) {
                        let (wl, wh): (PullId, PullId) = choose|wl: PullId, wh: PullId|
                            #![trigger self@.contains(wl), self@.contains(wh)]
                            self@.contains(wl) && self@.contains(wh) && wl.source_id == p.source_id
                                && wh.source_id == p.source_id && wl.stream_id == p.stream_id
                                && wh.stream_id == p.stream_id && wl.pull_id <= p.pull_id
                                <= wh.pull_id;
                        assert(has_stream(self@, p.source_id, p.stream_id));
                        assert(false);
                    }
                }
                return false;
            }
            proof {
                let l = lo.unwrap();
                let h = hi.unwrap();
                let wl = PullId { source_id: p.source_id, stream_id: p.stream_id, pull_id: l };
                let wh = PullId { source_id: p.source_id, stream_id: p.stream_id, pull_id: h };
                assert(self@.contains(wl) && self@.contains(wh));
                assert(covers(self@, p));
            }
            i += 1;
        }
        proof {
            assert forall|p: PullId| #[trigger] other@.contains(p) implies covers(self@, p) by {
                let k = other.triples().lemma_contains_to_index(p);
                assert(covers(self@, other.ids@[k]));
            }
        }
        true
    }
}

/// What a sequence holds after one more element was appended.
pub proof fn lemma_push_contains(s: Seq<PullId>, e: PullId, x: PullId)
    ensures
        s.push(e).contains(x) <==> s.contains(x) || x == e,
{
    if s.contains(x) {
        let k = s.lemma_contains_to_index(x);
        assert(s.push(e)[k] == x);
    }
    if x == e {
        assert(s.push(e)[s.len() as int] == x);
    }
    if s.push(e).contains(x) {
        let k = s.push(e).lemma_contains_to_index(x);
        if k < s.len() {
            assert(s[k] == x);
        }
    }
}

/// What one more element adds to a prefix of a sequence.
pub proof fn lemma_take_contains(s: Seq<PullId>, i: int, x: PullId)
    requires
        0 <= i < s.len(),
    ensures
        s.take(i + 1).contains(x) <==> s.take(i).contains(x) || x == s[i],
        s.take(i + 1).to_set().contains(x) <==> s.take(i).to_set().contains(x) || x == s[i],
{
    assert(s.take(i + 1) =~= s.take(i).push(s[i]));
    lemma_push_contains(s.take(i), s[i], x);
}

/// A strictly ascending sequence is determined by the set of its elements.
pub proof fn lemma_ascending_unique(s: Seq<PullId>, t: Seq<PullId>)
    requires
        ascending(s),
        ascending(t),
        s.to_set() == t.to_set(),
    ensures
        s == t,
    decreases s.len(),
{
    if s.len() == 0 {
        if t.len() > 0 {
            assert(t.to_set().contains(t[0]));
            assert(s.to_set().contains(t[0]));
        }
        assert(s =~= t);
    } else {
        assert(s.to_set().contains(s[0]));
        assert(t.to_set().contains(s[0]));
        let k = t.lemma_contains_to_index(s[0]);
        assert(t.to_set().contains(t[0]));
        assert(s.to_set().contains(t[0]));
        let m = s.lemma_contains_to_index(t[0]);
        assert(s[0] == t[0]) by {
            if m > 0 {
                assert(pull_lt(s[0], s[m]));
            }
            if k > 0 {
                assert(pull_lt(t[0], t[k]));
            }
        }
        let s1 = s.subrange(1, s.len() as int);
        let t1 = t.subrange(1, t.len() as int);
        assert(ascending(s1)) by {
            assert forall|i: int, j: int| 0 <= i < j < s1.len() implies pull_lt(
                #[trigger] s1[i],
                #[trigger] s1[j],
            ) by {
                assert(pull_lt(s[i + 1], s[j + 1]));
            }
        }
        assert(ascending(t1)) by {
            assert forall|i: int, j: int| 0 <= i < j < t1.len() implies pull_lt(
                #[trigger] t1[i],
                #[trigger] t1[j],
            ) by {
                assert(pull_lt(t[i + 1], t[j + 1]));
            }
        }
        assert(s1.to_set() =~= t1.to_set()) by {
            assert forall|x: PullId| s1.to_set().contains(x) implies t1.to_set().contains(x) by {
                let i = s1.lemma_contains_to_index(x);
                assert(s[i + 1] == x);
                assert(pull_lt(s[0], s[i + 1]));
                assert(s.to_set().contains(x));
                assert(t.to_set().contains(x));
                let j = t.lemma_contains_to_index(x);
                assert(j > 0);
                assert(t1[j - 1] == x);
            }
            assert forall|x: PullId| t1.to_set().contains(x) implies s1.to_set().contains(x) by {
                let i = t1.lemma_contains_to_index(x);
                assert(t[i + 1] == x);
                assert(pull_lt(t[0], t[i + 1]));
                assert(t.to_set().contains(x));
                assert(s.to_set().contains(x));
                let j = s.lemma_contains_to_index(x);
                assert(j > 0);
                assert(s1[j - 1] == x);
            }
        }
        lemma_ascending_unique(s1, t1);
        assert(s =~= t) by {
            assert(s.len() == s1.len() + 1);
            assert(t.len() == t1.len() + 1);
            assert forall|i: int| 0 <= i < s.len() implies s[i] == t[i] by {
                if i > 0 {
                    assert(s1[i - 1] == s[i]);
                    assert(t1[i - 1] == t[i]);
                }
            }
        }
    }
}

/// Two identifiers that stem from the same pulls are stored identically, so
/// `==` holds of them.
pub proof fn lemma_same_pulls_equal(a: EventId, b: EventId)
    requires
        a.wf(),
        b.wf(),
        a@ == b@,
    ensures
        a.triples() == b.triples(),
        a.eq_spec(&b),
{
    lemma_ascending_unique(a.triples(), b.triples());
}

/// `m` is a result of merging `a` and `b`: what `EventId::merge` returns.
pub open spec fn is_merge(m: EventId, a: EventId, b: EventId) -> bool {
    m.wf() && m@ == a@.union(b@)
}

/// Merging is commutative: `a.merge(b) == b.merge(a)`.
pub proof fn lemma_merge_commutative(a: EventId, b: EventId, ab: EventId, ba: EventId)
    requires
        a.wf(),
        b.wf(),
        is_merge(ab, a, b),
        is_merge(ba, b, a),
    ensures
        ab.eq_spec(&ba),
{
    assert(a@.union(b@) =~= b@.union(a@));
    lemma_same_pulls_equal(ab, ba);
}

/// Merging is associative: `a.merge(b).merge(c) == a.merge(b.merge(c))`.
pub proof fn lemma_merge_associative(
    a: EventId,
    b: EventId,
    c: EventId,
    ab: EventId,
    bc: EventId,
    left: EventId,
    right: EventId,
)
    requires
        a.wf(),
        b.wf(),
        c.wf(),
        is_merge(ab, a, b),
        is_merge(bc, b, c),
        is_merge(left, ab, c),
        is_merge(right, a, bc),
    ensures
        left.eq_spec(&right),
{
    assert(a@.union(b@).union(c@) =~= a@.union(b@.union(c@)));
    lemma_same_pulls_equal(left, right);
}

/// Merging an identifier with itself changes nothing.
pub proof fn lemma_merge_idempotent(a: EventId, aa: EventId)
    requires
        a.wf(),
        is_merge(aa, a, a),
    ensures
        aa.eq_spec(&a),
{
    assert(a@.union(a@) =~= a@);
    lemma_same_pulls_equal(aa, a);
}

/// An identifier tracks every identifier whose pulls it holds.
pub proof fn lemma_superset_tracks(a: EventId, b: EventId)
    requires
        b@.subset_of(a@),
    ensures
        tracks(a@, b@),
{
    assert forall|p: PullId| #[trigger] b@.contains(p) implies covers(a@, p) by {
        assert(a@.contains(p) && a@.contains(p));
    }
}

/// A merged identifier tracks both of its parts.
pub proof fn lemma_merge_tracks_parts(a: EventId, b: EventId, ab: EventId)
    requires
        is_merge(ab, a, b),
    ensures
        tracks(ab@, a@),
        tracks(ab@, b@),
{
    lemma_superset_tracks(ab, a);
    lemma_superset_tracks(ab, b);
}

impl Clone for EventId {
    fn clone(&self) -> (id: EventId)
        ensures
            id.triples() == self.triples(),
    {
        EventId { ids: self.to_vec() }
    }
}

impl PartialEq for EventId {
    fn eq(&self, other: &EventId) -> (r: bool) {
        if self.ids.len() != other.ids.len() {
            assert(self.triples().len() != other.triples().len());
            return false;
        }
        let mut i: usize = 0;
        while i < self.ids.len()
            invariant
                i <= self.ids.len(),
                self.ids.len() == other.ids.len(),
                forall|k: int| 0 <= k < i ==> self.ids@[k] == other.ids@[k],
            decreases self.ids.len() - i,
        {
            if self.ids[i] != other.ids[i] {
                assert(self.triples()[i as int] != other.triples()[i as int]);
                return false;
            }
            i += 1;
        }
        assert(self.triples() =~= other.triples());
        true
    }
}

impl vstd::std_specs::cmp::PartialEqSpecImpl for EventId {
    open spec fn obeys_eq_spec() -> bool {
        true
    }

    open spec fn eq_spec(&self, other: &EventId) -> bool {
        self.triples() == other.triples()
    }
}

impl Eq for EventId {

}

} // verus!
