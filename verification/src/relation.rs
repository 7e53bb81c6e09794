//! The relation hasher: a multimap from key value to the ordered list of
//! build-side row positions holding that key.
//!
//! The multimap is backed by two parallel vectors (distinct keys and their
//! buckets) so that every lookup is fully specified against the mathematical
//! `positions` function below.

use vstd::prelude::*;

use crate::value::KeyValue;
use crate::value::ValView;
use crate::value::clone_key;
use crate::value::key_eq;
use crate::value::key_views;

verus! {

/// The row positions among the first `n` cells of `b` whose value is
/// join-equal to `k`, in increasing order.
pub open spec fn positions_upto(
    b: Seq<Option<ValView>>,
    k: Option<ValView>,
    n: int,
) -> Seq<usize>
    decreases n,
{
    if n <= 0 {
        Seq::empty()
    } else {
        positions_upto(b, k, n - 1) + if b[n - 1] == k {
            seq![(n - 1) as usize]
        } else {
            Seq::empty()
        }
    }
}

/// The row positions in `b` whose value is join-equal to `k`, in increasing
/// order: the insertion order of one key's bucket.
pub open spec fn positions(b: Seq<Option<ValView>>, k: Option<ValView>) -> Seq<usize> {
    positions_upto(b, k, b.len() as int)
}

/// `positions_upto(b, k, n)` holds exactly the indices `j < n` with
/// `b[j] == k`.
pub proof fn lemma_positions_upto_contains(
    b: Seq<Option<ValView>>,
    k: Option<ValView>,
    n: int,
    j: usize,
)
    requires
        n <= b.len(),
        n <= usize::MAX,
    ensures
        positions_upto(b, k, n).contains(j) <==> (j < n && b[j as int] == k),
    decreases n,
{
    if n > 0 {
        lemma_positions_upto_contains(b, k, n - 1, j);
        let prev = positions_upto(b, k, n - 1);
        let whole = positions_upto(b, k, n);
        if j < n && b[j as int] == k {
            if j < n - 1 {
                let t = choose|t: int| 0 <= t < prev.len() && prev[t] == j;
                assert(whole[t] == j);
                assert(whole.contains(j));
            } else {
                assert(whole[whole.len() - 1] == (n - 1) as usize);
                assert(whole.contains(j));
            }
        }
        if whole.contains(j) {
            let t = choose|t: int| 0 <= t < whole.len() && whole[t] == j;
            if t < prev.len() {
                assert(prev[t] == j);
                assert(prev.contains(j));
            } else {
                assert(b[n - 1] == k && whole[t] == (n - 1) as usize);
            }
        }
    }
}

/// The positions are strictly increasing and below `n`; in particular the
/// bucket holds no duplicates.
pub proof fn lemma_positions_upto_increasing(
    b: Seq<Option<ValView>>,
    k: Option<ValView>,
    n: int,
)
    requires
        n <= usize::MAX,
    ensures
        forall|t: int|
            0 <= t < positions_upto(b, k, n).len() ==> #[trigger] positions_upto(b, k, n)[t]
                < n,
        forall|t1: int, t2: int|
            0 <= t1 < t2 < positions_upto(b, k, n).len() ==> positions_upto(b, k, n)[t1]
                < positions_upto(b, k, n)[t2],
    decreases n,
{
    if n > 0 {
        lemma_positions_upto_increasing(b, k, n - 1);
        let prev = positions_upto(b, k, n - 1);
        let whole = positions_upto(b, k, n);
        assert forall|t: int| 0 <= t < whole.len() implies #[trigger] whole[t] < n by {
            if t < prev.len() {
                assert(whole[t] == prev[t]);
            } else {
                assert(whole[t] == (n - 1) as usize);
            }
        }
        assert forall|t1: int, t2: int| 0 <= t1 < t2 < whole.len() implies whole[t1]
            < whole[t2] by {
            if t2 < prev.len() {
                assert(whole[t1] == prev[t1] && whole[t2] == prev[t2]);
            } else {
                assert(whole[t1] == prev[t1] && whole[t2] == (n - 1) as usize);
            }
        }
    }
}

/// Two cell sequences that agree on their first `n` cells index identically
/// up to `n`.
pub proof fn lemma_positions_upto_agree(
    s1: Seq<Option<ValView>>,
    s2: Seq<Option<ValView>>,
    k: Option<ValView>,
    n: int,
)
    requires
        forall|i: int| 0 <= i < n ==> s1[i] == s2[i],
    ensures
        positions_upto(s1, k, n) == positions_upto(s2, k, n),
    decreases n,
{
    if n > 0 {
        lemma_positions_upto_agree(s1, s2, k, n - 1);
    }
}

/// Appending one cell extends exactly the matching key's bucket by the new
/// position.
pub proof fn lemma_positions_snoc(
    s: Seq<Option<ValView>>,
    c: Option<ValView>,
    k: Option<ValView>,
)
    ensures
        c == k ==> positions(s.push(c), k) == positions(s, k).push(s.len() as usize),
        c != k ==> positions(s.push(c), k) == positions(s, k),
{
    let s2 = s.push(c);
    lemma_positions_upto_agree(s2, s, k, s.len() as int);
    assert(s2[s.len() as int] == c);
    if c == k {
        assert(positions_upto(s2, k, s2.len() as int) =~= positions(s, k).push(
            s.len() as usize,
        ));
    } else {
        assert(positions_upto(s2, k, s2.len() as int) =~= positions(s, k));
    }
}

/// The build-side multimap.  `keys` holds each distinct key once, and
/// `buckets[i]` holds, in insertion order, every build-side position whose
/// cell is join-equal to `keys[i]`.
pub struct HashedRelation {
    pub keys: Vec<KeyValue>,
    pub buckets: Vec<Vec<usize>>,
    /// The cell sequence this relation was built from.
    pub src: Ghost<Seq<Option<ValView>>>,
}

impl HashedRelation {
    /// The relation is a faithful index of its source cells.
    pub open spec fn wf(self) -> bool {
        &&& self.src@.len() <= usize::MAX
        &&& self.keys@.len() == self.buckets@.len()
        &&& forall|i: int, j: int|
            0 <= i < j < self.keys@.len() ==> self.keys@[i]@ != self.keys@[j]@
        &&& forall|i: int|
            0 <= i < self.keys@.len() ==> #[trigger] self.buckets@[i]@ == positions(
                self.src@,
                self.keys@[i]@,
            )
        &&& forall|i: int| 0 <= i < self.keys@.len() ==> #[trigger] self.buckets@[i]@.len() > 0
        &&& forall|j: int|
            0 <= j < self.src@.len() ==> exists|i: int|
                0 <= i < self.keys@.len() && self.keys@[i]@ == #[trigger] self.src@[j]
    }

    /// The bucket slot whose key is join-equal to `k`, if any.
    fn find(&self, k: &KeyValue) -> (r: Option<usize>)
        ensures
            match r {
                Some(i) => i < self.keys@.len() && self.keys@[i as int]@ == k@,
                None => forall|i: int| 0 <= i < self.keys@.len() ==> self.keys@[i]@ != k@,
            },
    {
        let mut i: usize = 0;
        while i < self.keys.len()
            invariant
                i <= self.keys@.len(),
                forall|t: int| 0 <= t < i ==> self.keys@[t]@ != k@,
            decreases self.keys@.len() - i,
        {
            if key_eq(&self.keys[i], k) {
                return Some(i);
            }
            i = i + 1;
        }
        None
    }

    /// Look up the bucket of `k`: `Some` with the full, non-empty position
    /// list when `k` occurs in the source, `None` when it does not.
    pub fn get<'a>(&'a self, k: &KeyValue) -> (r: Option<&'a Vec<usize>>)
        requires
            self.wf(),
        ensures
            match r {
                Some(bucket) => bucket@ == positions(self.src@, k@) && bucket@.len() > 0,
                None => positions(self.src@, k@).len() == 0,
            },
    {
        match self.find(k) {
            Some(i) => Some(&self.buckets[i]),
            None => {
                proof {
                    let ps = positions(self.src@, k@);
                    if ps.len() > 0 {
                        let j = ps[0];
                        lemma_positions_upto_contains(self.src@, k@, self.src@.len() as int, j);
                        assert(ps.contains(j));
                    }
                }
                None
            },
        }
    }
}

/// Build the multimap over the cells of `b`: every key that occurs in `b`
/// gets a bucket holding, in order of production, each 0-based position at
/// which it occurred.  Absent keys are an empty lookup, never an error.
pub fn prepare_hashed_relation(b: &Vec<KeyValue>) -> (rel: HashedRelation)
    ensures
        rel.wf(),
        rel.src@ == key_views(b@),
{
    let mut rel = HashedRelation {
        keys: Vec::new(),
        buckets: Vec::new(),
        src: Ghost(Seq::empty()),
    };
    proof {
        assert(key_views(b@.subrange(0, 0)) =~= Seq::empty());
    }
    let mut idx: usize = 0;
    while idx < b.len()
        invariant
            idx <= b@.len(),
            rel.wf(),
            rel.src@ == key_views(b@.subrange(0, idx as int)),
            rel.src@.len() == idx,
        decreases b@.len() - idx,
    {
        let ghost old_rel = rel;
        let ghost cell = b@[idx as int]@;
        proof {
            assert(key_views(b@.subrange(0, idx as int + 1)) =~= rel.src@.push(cell));
        }
        match rel.find(&b[idx]) {
            Some(slot) => {
                rel.buckets[slot].push(idx);
                rel.src = Ghost(rel.src@.push(cell));
                proof {
                    assert forall|i: int| 0 <= i < rel.keys@.len() implies #[trigger] rel.buckets@[i]@
                        == positions(rel.src@, rel.keys@[i]@) by {
                        lemma_positions_snoc(old_rel.src@, cell, rel.keys@[i]@);
                        if i == slot {
                            assert(rel.buckets@[i]@ == old_rel.buckets@[i]@.push(idx));
                        } else {
                            assert(rel.keys@[i]@ != cell);
                        }
                    }
                    assert(rel.keys@[slot as int]@ == cell);
                    assert forall|j: int| 0 <= j < rel.src@.len() implies exists|i: int|
                        0 <= i < rel.keys@.len() && rel.keys@[i]@ == #[trigger] rel.src@[j] by {
                        if j < idx {
                            assert(rel.src@[j] == old_rel.src@[j]);
                        } else {
                            assert(rel.keys@[slot as int]@ == rel.src@[j]);
                        }
                    }
                }
            },
            None => {
                rel.keys.push(clone_key(&b[idx]));
                let mut bucket: Vec<usize> = Vec::new();
                bucket.push(idx);
                rel.buckets.push(bucket);
                rel.src = Ghost(rel.src@.push(cell));
                proof {
                    lemma_positions_snoc(old_rel.src@, cell, cell);
                    if positions(old_rel.src@, cell).len() > 0 {
                        let j = positions(old_rel.src@, cell)[0];
                        lemma_positions_upto_contains(
                            old_rel.src@,
                            cell,
                            old_rel.src@.len() as int,
                            j,
                        );
                        assert(positions(old_rel.src@, cell).contains(j));
                    }
                    assert(positions(rel.src@, cell) =~= seq![idx]);
                    assert forall|i: int| 0 <= i < rel.keys@.len() implies #[trigger] rel.buckets@[i]@
                        == positions(rel.src@, rel.keys@[i]@) by {
                        lemma_positions_snoc(old_rel.src@, cell, rel.keys@[i]@);
                        if i < rel.keys@.len() - 1 {
                            assert(rel.keys@[i]@ != cell);
                        }
                    }
                    assert(rel.keys@[rel.keys@.len() - 1]@ == cell);
                    assert forall|j: int| 0 <= j < rel.src@.len() implies exists|i: int|
                        0 <= i < rel.keys@.len() && rel.keys@[i]@ == #[trigger] rel.src@[j] by {
                        if j < idx {
                            assert(rel.src@[j] == old_rel.src@[j]);
                            let w = choose|i: int|
                                0 <= i < old_rel.keys@.len() && old_rel.keys@[i]@
                                    == old_rel.src@[j];
                            assert(rel.keys@[w]@ == rel.src@[j]);
                        } else {
                            assert(rel.keys@[rel.keys@.len() - 1]@ == rel.src@[j]);
                        }
                    }
                }
            },
        }
        idx = idx + 1;
    }
    proof {
        assert(b@.subrange(0, b@.len() as int) =~= b@);
    }
    rel
}

} // verus!
