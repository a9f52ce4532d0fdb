//! What a source has heard back: the acknowledgments, the failures and
//! the circuit-breaker events that reached it.

use vstd::prelude::*;

verus! {

/// `m` is the greatest element of `s`.
pub open spec fn is_max(s: Seq<u64>, m: u64) -> bool {
    s.contains(m) && forall|i: int| 0 <= i < s.len() ==> #[trigger] s[i] <= m
}

/// The greatest element of `v`, if it has any.
pub fn max_of(v: &Vec<u64>) -> (r: Option<u64>)
    ensures
        match r {
            Some(m) => is_max(v@, m),
            None => v@.len() == 0,
        },
{
    if v.len() == 0 {
        return None;
    }
    let mut best: u64 = v[0];
    let mut i: usize = 1;
    assert(v@.take(1)[0] == best);
    while i < v.len()
        invariant
            1 <= i <= v.len(),
            is_max(v@.take(i as int), best),
        decreases v.len() - i,
    {
        let ghost prev = v@.take(i as int);
        let ghost k = prev.lemma_contains_to_index(best);
        if v[i] > best {
            best = v[i];
        }
        i += 1;
        proof {
            let cur = v@.take(i as int);
            if best == v@[i - 1] {
                assert(cur[i - 1] == best);
            } else {
                assert(cur[k] == best);
            }
            assert forall|j: int| 0 <= j < cur.len() implies #[trigger] cur[j] <= best by {
                if j < i - 1 {
                    assert(prev[j] == cur[j]);
                }
            }
        }
    }
    assert(v@.take(i as int) =~= v@);
    Some(best)
}

/// The callbacks that a source has received, in the order of their arrival.
/// An identifier that is reported twice is recorded twice.
#[derive(Debug)]
pub struct ReceivedCbs {
    /// The pulls that were acknowledged.
    pub ack: Vec<u64>,
    /// The pulls that failed.
    pub fail: Vec<u64>,
    /// How often the circuit breaker was triggered.
    pub trigger: u64,
    /// How often the circuit breaker was restored.
    pub restore: u64,
}

impl Default for ReceivedCbs {
    fn default() -> (r: ReceivedCbs)
        ensures
            r.ack@ == Seq::<u64>::empty(),
            r.fail@ == Seq::<u64>::empty(),
            r.trigger == 0,
            r.restore == 0,
    {
        ReceivedCbs { ack: Vec::new(), fail: Vec::new(), trigger: 0, restore: 0 }
    }
}

impl ReceivedCbs {
    /// The number of acknowledgments and failures together.
    pub open spec fn spec_count(&self) -> nat {
        self.ack@.len() + self.fail@.len()
    }

    /// The number of acknowledgments and failures together.
    pub fn count(&self) -> (n: usize)
        requires
            self.spec_count() <= usize::MAX,
        ensures
            n == self.spec_count(),
    {
        self.ack.len() + self.fail.len()
    }

    /// The highest pull that was acknowledged or failed, if any was.
    pub fn max(&self) -> (r: Option<u64>)
        ensures
            match r {
                Some(m) => is_max(self.ack@ + self.fail@, m),
                None => self.ack@.len() == 0 && self.fail@.len() == 0,
            },
    {
        let a = max_of(&self.ack);
        let f = max_of(&self.fail);
        let ghost all = self.ack@ + self.fail@;
        match (a, f) {
            (Some(x), Some(y)) => {
                let m = if x >= y {
                    x
                } else {
                    y
                };
                proof {
                    let i = self.ack@.lemma_contains_to_index(x);
                    let j = self.fail@.lemma_contains_to_index(y);
                    assert(all[i] == x);
                    assert(all[self.ack@.len() + j] == y);
                    assert forall|k: int| 0 <= k < all.len() implies #[trigger] all[k] <= m by {
                        if k < self.ack@.len() {
                            assert(all[k] == self.ack@[k]);
                        } else {
                            assert(all[k] == self.fail@[k - self.ack@.len()]);
                        }
                    }
                }
                Some(m)
            },
            (Some(x), None) => {
                assert(all =~= self.ack@);
                Some(x)
            },
            (None, Some(y)) => {
                assert(all =~= self.fail@);
                Some(y)
            },
            (None, None) => None,
        }
    }
}

} // verus!
