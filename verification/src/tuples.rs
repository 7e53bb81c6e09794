//! The probe engine: the three algorithms that consume a probe-side key
//! vector against a hashed build side and emit join tuples.
//!
//! Inner and left joins produce an ordered sequence following probe order;
//! within one probe row, matches follow the build bucket's insertion order.
//! The full-outer join is the deduplicated union of two directional passes.

use vstd::prelude::*;

use crate::errors::JoinError;
use crate::relation::positions;
use crate::relation::prepare_hashed_relation;
use crate::value::KeyValue;
use crate::value::ValView;
use crate::value::key_views;

verus! {

/// The inner-join tuples one probe row at position `ia` with key `k`
/// contributes: one `(left, right)` pair per build match, swapped when the
/// probe side is the logical right side.
pub open spec fn inner_row(
    b: Seq<Option<ValView>>,
    k: Option<ValView>,
    ia: usize,
    swap: bool,
) -> Seq<(usize, usize)> {
    positions(b, k).map_values(
        |ib: usize|
            if swap {
                (ib, ia)
            } else {
                (ia, ib)
            },
    )
}

/// Inner-join tuples of the first `n` probe rows.
pub open spec fn inner_tuples_upto(
    a: Seq<Option<ValView>>,
    b: Seq<Option<ValView>>,
    swap: bool,
    n: int,
) -> Seq<(usize, usize)>
    decreases n,
{
    if n <= 0 {
        Seq::empty()
    } else {
        inner_tuples_upto(a, b, swap, n - 1) + inner_row(b, a[n - 1], (n - 1) as usize, swap)
    }
}

/// All inner-join tuples of probe side `a` against build side `b`.
pub open spec fn inner_tuples(
    a: Seq<Option<ValView>>,
    b: Seq<Option<ValView>>,
    swap: bool,
) -> Seq<(usize, usize)> {
    inner_tuples_upto(a, b, swap, a.len() as int)
}

/// The left-join tuples of the left row at `ia` with key `k`: one tuple per
/// match, or exactly one `(ia, None)` tuple when the row has no match.
pub open spec fn left_row(b: Seq<Option<ValView>>, k: Option<ValView>, ia: usize) -> Seq<
    (usize, Option<usize>),
> {
    if positions(b, k).len() == 0 {
        seq![(ia, None::<usize>)]
    } else {
        positions(b, k).map_values(|ib: usize| (ia, Some(ib)))
    }
}

/// Left-join tuples of the first `n` left rows.
pub open spec fn left_tuples_upto(
    a: Seq<Option<ValView>>,
    b: Seq<Option<ValView>>,
    n: int,
) -> Seq<(usize, Option<usize>)>
    decreases n,
{
    if n <= 0 {
        Seq::empty()
    } else {
        left_tuples_upto(a, b, n - 1) + left_row(b, a[n - 1], (n - 1) as usize)
    }
}

/// All left-join tuples of left side `a` against right side `b`.
pub open spec fn left_tuples(a: Seq<Option<ValView>>, b: Seq<Option<ValView>>) -> Seq<
    (usize, Option<usize>),
> {
    left_tuples_upto(a, b, a.len() as int)
}

/// One left row's contribution to the left-to-right outer pass.
pub open spec fn outer_lr_row(b: Seq<Option<ValView>>, k: Option<ValView>, ia: usize) -> Seq<
    (Option<usize>, Option<usize>),
> {
    if positions(b, k).len() == 0 {
        seq![(Some(ia), None::<usize>)]
    } else {
        positions(b, k).map_values(|ib: usize| (Some(ia), Some(ib)))
    }
}

/// The left-to-right outer pass over the first `n` left rows.
pub open spec fn outer_lr_upto(
    a: Seq<Option<ValView>>,
    b: Seq<Option<ValView>>,
    n: int,
) -> Seq<(Option<usize>, Option<usize>)>
    decreases n,
{
    if n <= 0 {
        Seq::empty()
    } else {
        outer_lr_upto(a, b, n - 1) + outer_lr_row(b, a[n - 1], (n - 1) as usize)
    }
}

/// The full left-to-right outer pass: hash the right relation, probe with
/// the left relation.
pub open spec fn outer_lr(a: Seq<Option<ValView>>, b: Seq<Option<ValView>>) -> Seq<
    (Option<usize>, Option<usize>),
> {
    outer_lr_upto(a, b, a.len() as int)
}

/// One right row's contribution to the right-to-left outer pass.
pub open spec fn outer_rl_row(a: Seq<Option<ValView>>, k: Option<ValView>, ib: usize) -> Seq<
    (Option<usize>, Option<usize>),
> {
    if positions(a, k).len() == 0 {
        seq![(None::<usize>, Some(ib))]
    } else {
        positions(a, k).map_values(|ia: usize| (Some(ia), Some(ib)))
    }
}

/// The right-to-left outer pass over the first `n` right rows.
pub open spec fn outer_rl_upto(
    a: Seq<Option<ValView>>,
    b: Seq<Option<ValView>>,
    n: int,
) -> Seq<(Option<usize>, Option<usize>)>
    decreases n,
{
    if n <= 0 {
        Seq::empty()
    } else {
        outer_rl_upto(a, b, n - 1) + outer_rl_row(a, b[n - 1], (n - 1) as usize)
    }
}

/// The full right-to-left outer pass: hash the left relation, probe with
/// the right relation.
pub open spec fn outer_rl(a: Seq<Option<ValView>>, b: Seq<Option<ValView>>) -> Seq<
    (Option<usize>, Option<usize>)
> {
    outer_rl_upto(a, b, b.len() as int)
}

/// Fold the first `n` elements of `add` onto `base`, keeping each element's
/// first occurrence only.
pub open spec fn dedup_append_upto(
    base: Seq<(Option<usize>, Option<usize>)>,
    add: Seq<(Option<usize>, Option<usize>)>,
    n: int,
) -> Seq<(Option<usize>, Option<usize>)>
    decreases n,
{
    if n <= 0 {
        base
    } else {
        let prev = dedup_append_upto(base, add, n - 1);
        if prev.contains(add[n - 1]) {
            prev
        } else {
            prev.push(add[n - 1])
        }
    }
}

/// The merged, deduplicated outer-join tuple collection: the left-to-right
/// pass followed by whatever the right-to-left pass adds.
pub open spec fn outer_merged(a: Seq<Option<ValView>>, b: Seq<Option<ValView>>) -> Seq<
    (Option<usize>, Option<usize>)
> {
    dedup_append_upto(outer_lr(a, b), outer_rl(a, b), outer_rl(a, b).len() as int)
}

/// Inner join: hash `b`, probe with `a`; for each probe row, emit one pair
/// per build match, `(probe, build)` or swapped when `swap` is set.
/// Unmatched probe rows emit nothing.  `b` should be the shorter relation.
/// Nulls are join-equal.
pub fn hash_join_tuples_inner(a: &Vec<KeyValue>, b: &Vec<KeyValue>, swap: bool) -> (r: Vec<
    (usize, usize)
>)
    ensures
        r@ == inner_tuples(key_views(a@), key_views(b@), swap),
{
    let ghost av = key_views(a@);
    let ghost bv = key_views(b@);
    let rel = prepare_hashed_relation(b);
    let mut results: Vec<(usize, usize)> = Vec::new();
    let mut idx_a: usize = 0;
    while idx_a < a.len()
        invariant
            idx_a <= a@.len(),
            av == key_views(a@),
            bv == key_views(b@),
            rel.wf(),
            rel.src@ == bv,
            results@ == inner_tuples_upto(av, bv, swap, idx_a as int),
        decreases a@.len() - idx_a,
    {
        let ghost k = av[idx_a as int];
        let ghost row = inner_row(bv, k, idx_a, swap);
        match rel.get(&a[idx_a]) {
            Some(bucket) => {
                let mut t: usize = 0;
                while t < bucket.len()
                    invariant
                        t <= bucket@.len(),
                        bucket@ == positions(bv, k),
                        row == inner_row(bv, k, idx_a, swap),
                        results@ == inner_tuples_upto(av, bv, swap, idx_a as int) + row.take(
                            t as int,
                        ),
                    decreases bucket@.len() - t,
                {
                    let idx_b = bucket[t];
                    if swap {
                        results.push((idx_b, idx_a));
                    } else {
                        results.push((idx_a, idx_b));
                    }
                    proof {
                        assert(results@ =~= inner_tuples_upto(av, bv, swap, idx_a as int)
                            + row.take(t as int + 1));
                    }
                    t = t + 1;
                }
                proof {
                    assert(row.take(row.len() as int) =~= row);
                    assert(results@ == inner_tuples_upto(av, bv, swap, idx_a as int + 1));
                }
            },
            None => {
                proof {
                    assert(row =~= Seq::empty());
                    assert(results@ =~= inner_tuples_upto(av, bv, swap, idx_a as int + 1));
                }
            },
        }
        idx_a = idx_a + 1;
    }
    results
}

/// Left join: hash the right relation `b`, iterate the left relation `a` in
/// order; a row with matches emits one tuple per match, a row without any
/// emits exactly one `(ia, None)` tuple.  Every left row index appears at
/// least once.  Nulls are join-equal.
pub fn hash_join_tuples_left(a: &Vec<KeyValue>, b: &Vec<KeyValue>) -> (r: Vec<
    (usize, Option<usize>)
>)
    ensures
        r@ == left_tuples(key_views(a@), key_views(b@)),
{
    let ghost av = key_views(a@);
    let ghost bv = key_views(b@);
    let rel = prepare_hashed_relation(b);
    let mut results: Vec<(usize, Option<usize>)> = Vec::new();
    let mut idx_a: usize = 0;
    while idx_a < a.len()
        invariant
            idx_a <= a@.len(),
            av == key_views(a@),
            bv == key_views(b@),
            rel.wf(),
            rel.src@ == bv,
            results@ == left_tuples_upto(av, bv, idx_a as int),
        decreases a@.len() - idx_a,
    {
        let ghost k = av[idx_a as int];
        let ghost row = left_row(bv, k, idx_a);
        match rel.get(&a[idx_a]) {
            Some(bucket) => {
                let mut t: usize = 0;
                while t < bucket.len()
                    invariant
                        t <= bucket@.len(),
                        bucket@ == positions(bv, k),
                        bucket@.len() > 0,
                        row == left_row(bv, k, idx_a),
                        results@ == left_tuples_upto(av, bv, idx_a as int) + row.take(t as int),
                    decreases bucket@.len() - t,
                {
                    let idx_b = bucket[t];
                    results.push((idx_a, Some(idx_b)));
                    proof {
                        assert(results@ =~= left_tuples_upto(av, bv, idx_a as int) + row.take(
                            t as int + 1,
                        ));
                    }
                    t = t + 1;
                }
                proof {
                    assert(row.take(row.len() as int) =~= row);
                    assert(results@ == left_tuples_upto(av, bv, idx_a as int + 1));
                }
            },
            None => {
                results.push((idx_a, None));
                proof {
                    assert(results@ =~= left_tuples_upto(av, bv, idx_a as int + 1));
                }
            },
        }
        idx_a = idx_a + 1;
    }
    results
}

/// The left-to-right directional pass of the outer join: like a left join,
/// with both indices wrapped in `Some` and unmatched left rows emitting
/// `(Some(ia), None)`.
pub fn outer_pass_lr(a: &Vec<KeyValue>, b: &Vec<KeyValue>) -> (r: Vec<
    (Option<usize>, Option<usize>)
>)
    ensures
        r@ == outer_lr(key_views(a@), key_views(b@)),
{
    let ghost av = key_views(a@);
    let ghost bv = key_views(b@);
    let rel = prepare_hashed_relation(b);
    let mut results: Vec<(Option<usize>, Option<usize>)> = Vec::new();
    let mut idx_a: usize = 0;
    while idx_a < a.len()
        invariant
            idx_a <= a@.len(),
            av == key_views(a@),
            bv == key_views(b@),
            rel.wf(),
            rel.src@ == bv,
            results@ == outer_lr_upto(av, bv, idx_a as int),
        decreases a@.len() - idx_a,
    {
        let ghost k = av[idx_a as int];
        let ghost row = outer_lr_row(bv, k, idx_a);
        match rel.get(&a[idx_a]) {
            Some(bucket) => {
                let mut t: usize = 0;
                while t < bucket.len()
                    invariant
                        t <= bucket@.len(),
                        bucket@ == positions(bv, k),
                        bucket@.len() > 0,
                        row == outer_lr_row(bv, k, idx_a),
                        results@ == outer_lr_upto(av, bv, idx_a as int) + row.take(t as int),
                    decreases bucket@.len() - t,
                {
                    let idx_b = bucket[t];
                    results.push((Some(idx_a), Some(idx_b)));
                    proof {
                        assert(results@ =~= outer_lr_upto(av, bv, idx_a as int) + row.take(
                            t as int + 1,
                        ));
                    }
                    t = t + 1;
                }
                proof {
                    assert(row.take(row.len() as int) =~= row);
                    assert(results@ == outer_lr_upto(av, bv, idx_a as int + 1));
                }
            },
            None => {
                results.push((Some(idx_a), None));
                proof {
                    assert(results@ =~= outer_lr_upto(av, bv, idx_a as int + 1));
                }
            },
        }
        idx_a = idx_a + 1;
    }
    results
}

/// The right-to-left directional pass of the outer join: hash the left
/// relation, probe with the right relation; unmatched right rows emit
/// `(None, Some(ib))`.
pub fn outer_pass_rl(a: &Vec<KeyValue>, b: &Vec<KeyValue>) -> (r: Vec<
    (Option<usize>, Option<usize>)
>)
    ensures
        r@ == outer_rl(key_views(a@), key_views(b@)),
{
    let ghost av = key_views(a@);
    let ghost bv = key_views(b@);
    let rel = prepare_hashed_relation(a);
    let mut results: Vec<(Option<usize>, Option<usize>)> = Vec::new();
    let mut idx_b: usize = 0;
    while idx_b < b.len()
        invariant
            idx_b <= b@.len(),
            av == key_views(a@),
            bv == key_views(b@),
            rel.wf(),
            rel.src@ == av,
            results@ == outer_rl_upto(av, bv, idx_b as int),
        decreases b@.len() - idx_b,
    {
        let ghost k = bv[idx_b as int];
        let ghost row = outer_rl_row(av, k, idx_b);
        match rel.get(&b[idx_b]) {
            Some(bucket) => {
                let mut t: usize = 0;
                while t < bucket.len()
                    invariant
                        t <= bucket@.len(),
                        bucket@ == positions(av, k),
                        bucket@.len() > 0,
                        row == outer_rl_row(av, k, idx_b),
                        results@ == outer_rl_upto(av, bv, idx_b as int) + row.take(t as int),
                    decreases bucket@.len() - t,
                {
                    let idx_a = bucket[t];
                    results.push((Some(idx_a), Some(idx_b)));
                    proof {
                        assert(results@ =~= outer_rl_upto(av, bv, idx_b as int) + row.take(
                            t as int + 1,
                        ));
                    }
                    t = t + 1;
                }
                proof {
                    assert(row.take(row.len() as int) =~= row);
                    assert(results@ == outer_rl_upto(av, bv, idx_b as int + 1));
                }
            },
            None => {
                results.push((None, Some(idx_b)));
                proof {
                    assert(results@ =~= outer_rl_upto(av, bv, idx_b as int + 1));
                }
            },
        }
        idx_b = idx_b + 1;
    }
    results
}

/// Whether two join tuples are the same pairing.
fn tuple_eq(x: (Option<usize>, Option<usize>), y: (Option<usize>, Option<usize>)) -> (r: bool)
    ensures
        r == (x == y),
{
    let first = match (x.0, y.0) {
        (None, None) => true,
        (Some(p), Some(q)) => p == q,
        _ => false,
    };
    let second = match (x.1, y.1) {
        (None, None) => true,
        (Some(p), Some(q)) => p == q,
        _ => false,
    };
    first && second
}

/// Whether `v` already holds the tuple `x`.
fn tuple_in(v: &Vec<(Option<usize>, Option<usize>)>, x: (Option<usize>, Option<usize>)) -> (r:
    bool)
    ensures
        r == v@.contains(x),
{
    let mut i: usize = 0;
    while i < v.len()
        invariant
            i <= v@.len(),
            forall|t: int| 0 <= t < i ==> v@[t] != x,
        decreases v@.len() - i,
    {
        if tuple_eq(v[i], x) {
            assert(v@.contains(x));
            return true;
        }
        i = i + 1;
    }
    proof {
        if v@.contains(x) {
            let t = choose|t: int| 0 <= t < v@.len() && v@[t] == x;
            assert(false);
        }
    }
    false
}

/// Relies on `crossbeam::thread::scope` and `ScopedJoinHandle::join`: the two
/// worker closures call only this library's verified pass functions, `join`
/// hands back each closure's return value, and the result is `None` when the
/// scope or a worker failed instead of a propagated panic.
#[verifier::external_body]
fn par_outer_passes(a: &Vec<KeyValue>, b: &Vec<KeyValue>) -> (r: Option<
    (Vec<(Option<usize>, Option<usize>)>, Vec<(Option<usize>, Option<usize>)>)
>)
    ensures
        r matches Some(p) ==> p.0@ == outer_lr(key_views(a@), key_views(b@)) && p.1@ == outer_rl(
            key_views(a@),
            key_views(b@),
        ),
{
    let res = crossbeam::thread::scope(|s| {
        let handle_lr = s.spawn(|_| outer_pass_lr(a, b));
        let handle_rl = s.spawn(|_| outer_pass_rl(a, b));
        match (handle_lr.join(), handle_rl.join()) {
            (Ok(lr), Ok(rl)) => Some((lr, rl)),
            _ => None,
        }
    });
    match res {
        Ok(v) => v,
        Err(_) => None,
    }
}

/// Outer join: run the two directional passes as two concurrent worker
/// tasks, then merge their results into a deduplicated collection, so that
/// matched pairs discovered by both passes collapse to one entry.  A worker
/// failure surfaces as `WorkerFailure`, never as an abort.
pub fn hash_join_tuples_outer(a: &Vec<KeyValue>, b: &Vec<KeyValue>) -> (r: Result<
    Vec<(Option<usize>, Option<usize>)>,
    JoinError,
>)
    ensures
        match r {
            Ok(v) => v@ == outer_merged(key_views(a@), key_views(b@)),
            Err(e) => e == JoinError::WorkerFailure,
        },
{
    let ghost av = key_views(a@);
    let ghost bv = key_views(b@);
    match par_outer_passes(a, b) {
        None => Err(JoinError::WorkerFailure),
        Some((lr, rl)) => {
            let ghost base = lr@;
            let mut results = lr;
            let mut t: usize = 0;
            while t < rl.len()
                invariant
                    t <= rl@.len(),
                    base == outer_lr(av, bv),
                    rl@ == outer_rl(av, bv),
                    results@ == dedup_append_upto(base, rl@, t as int),
                decreases rl@.len() - t,
            {
                let x = rl[t];
                if !tuple_in(&results, x) {
                    results.push(x);
                }
                t = t + 1;
            }
            Ok(results)
        },
    }
}

} // verus!

verus! {

/// The left-row gather positions of an inner-join tuple collection.
pub open spec fn inner_left_idx(tups: Seq<(usize, usize)>) -> Seq<Option<usize>> {
    tups.map_values(|t: (usize, usize)| Some(t.0))
}

/// The right-row gather positions of an inner-join tuple collection.
pub open spec fn inner_right_idx(tups: Seq<(usize, usize)>) -> Seq<Option<usize>> {
    tups.map_values(|t: (usize, usize)| Some(t.1))
}

/// The left-row gather positions of a left-join tuple collection.
pub open spec fn left_left_idx(tups: Seq<(usize, Option<usize>)>) -> Seq<Option<usize>> {
    tups.map_values(|t: (usize, Option<usize>)| Some(t.0))
}

/// The right-row gather positions of a left-join tuple collection.
pub open spec fn left_right_idx(tups: Seq<(usize, Option<usize>)>) -> Seq<Option<usize>> {
    tups.map_values(|t: (usize, Option<usize>)| t.1)
}

/// The left-row gather positions of an outer-join tuple collection.
pub open spec fn outer_left_idx(tups: Seq<(Option<usize>, Option<usize>)>) -> Seq<
    Option<usize>,
> {
    tups.map_values(|t: (Option<usize>, Option<usize>)| t.0)
}

/// The right-row gather positions of an outer-join tuple collection.
pub open spec fn outer_right_idx(tups: Seq<(Option<usize>, Option<usize>)>) -> Seq<
    Option<usize>,
> {
    tups.map_values(|t: (Option<usize>, Option<usize>)| t.1)
}

/// Every inner-join tuple indexes a probe row below `n` and a build row
/// inside `b`.
pub proof fn lemma_inner_upto_bounds(
    a: Seq<Option<ValView>>,
    b: Seq<Option<ValView>>,
    swap: bool,
    n: int,
)
    requires
        n <= a.len(),
        n <= usize::MAX,
        b.len() <= usize::MAX,
    ensures
        forall|t: int|
            0 <= t < inner_tuples_upto(a, b, swap, n).len() ==> ((!swap ==> (
            #[trigger] inner_tuples_upto(a, b, swap, n)[t]).0 < n && inner_tuples_upto(
                a,
                b,
                swap,
                n,
            )[t].1 < b.len()) && (swap ==> inner_tuples_upto(a, b, swap, n)[t].0 < b.len()
                && inner_tuples_upto(a, b, swap, n)[t].1 < n)),
    decreases n,
{
    if n > 0 {
        lemma_inner_upto_bounds(a, b, swap, n - 1);
        crate::relation::lemma_positions_upto_increasing(b, a[n - 1], b.len() as int);
        let prev = inner_tuples_upto(a, b, swap, n - 1);
        let whole = inner_tuples_upto(a, b, swap, n);
        let row = inner_row(b, a[n - 1], (n - 1) as usize, swap);
        assert forall|t: int| 0 <= t < whole.len() implies ((!swap ==> (#[trigger] whole[t]).0
            < n && whole[t].1 < b.len()) && (swap ==> whole[t].0 < b.len() && whole[t].1
            < n)) by {
            if t < prev.len() {
                assert(whole[t] == prev[t]);
            } else {
                assert(whole[t] == row[t - prev.len()]);
                assert(positions(b, a[n - 1])[t - prev.len()] < b.len());
            }
        }
    }
}

/// Every left-join tuple indexes a left row below `n`, and its right side,
/// when present, a row inside `b`.
pub proof fn lemma_left_upto_bounds(a: Seq<Option<ValView>>, b: Seq<Option<ValView>>, n: int)
    requires
        n <= a.len(),
        n <= usize::MAX,
        b.len() <= usize::MAX,
    ensures
        forall|t: int|
            0 <= t < left_tuples_upto(a, b, n).len() ==> ((#[trigger] left_tuples_upto(
                a,
                b,
                n,
            )[t]).0 < n && (left_tuples_upto(a, b, n)[t].1 matches Some(ib) ==> ib < b.len())),
    decreases n,
{
    if n > 0 {
        lemma_left_upto_bounds(a, b, n - 1);
        crate::relation::lemma_positions_upto_increasing(b, a[n - 1], b.len() as int);
        let prev = left_tuples_upto(a, b, n - 1);
        let whole = left_tuples_upto(a, b, n);
        let row = left_row(b, a[n - 1], (n - 1) as usize);
        assert forall|t: int| 0 <= t < whole.len() implies ((#[trigger] whole[t]).0 < n && (
        whole[t].1 matches Some(ib) ==> ib < b.len())) by {
            if t < prev.len() {
                assert(whole[t] == prev[t]);
            } else {
                assert(whole[t] == row[t - prev.len()]);
                if positions(b, a[n - 1]).len() > 0 {
                    assert(positions(b, a[n - 1])[t - prev.len()] < b.len());
                }
            }
        }
    }
}

/// Every tuple of the left-to-right pass indexes a left row below `n` and,
/// when present, a right row inside `b`.
pub proof fn lemma_outer_lr_upto_bounds(
    a: Seq<Option<ValView>>,
    b: Seq<Option<ValView>>,
    n: int,
)
    requires
        n <= a.len(),
        n <= usize::MAX,
        b.len() <= usize::MAX,
    ensures
        forall|t: int|
            0 <= t < outer_lr_upto(a, b, n).len() ==> (((#[trigger] outer_lr_upto(a, b, n)[t]).0
                matches Some(ia) ==> ia < n) && (outer_lr_upto(a, b, n)[t].1 matches Some(ib)
                ==> ib < b.len())),
    decreases n,
{
    if n > 0 {
        lemma_outer_lr_upto_bounds(a, b, n - 1);
        crate::relation::lemma_positions_upto_increasing(b, a[n - 1], b.len() as int);
        let prev = outer_lr_upto(a, b, n - 1);
        let whole = outer_lr_upto(a, b, n);
        let row = outer_lr_row(b, a[n - 1], (n - 1) as usize);
        assert forall|t: int| 0 <= t < whole.len() implies (((#[trigger] whole[t]).0 matches
            Some(ia) ==> ia < n) && (whole[t].1 matches Some(ib) ==> ib < b.len())) by {
            if t < prev.len() {
                assert(whole[t] == prev[t]);
            } else {
                assert(whole[t] == row[t - prev.len()]);
                if positions(b, a[n - 1]).len() > 0 {
                    assert(positions(b, a[n - 1])[t - prev.len()] < b.len());
                }
            }
        }
    }
}

/// Every tuple of the right-to-left pass indexes, when present, a left row
/// inside `a` and a right row below `n`.
pub proof fn lemma_outer_rl_upto_bounds(
    a: Seq<Option<ValView>>,
    b: Seq<Option<ValView>>,
    n: int,
)
    requires
        n <= b.len(),
        n <= usize::MAX,
        a.len() <= usize::MAX,
    ensures
        forall|t: int|
            0 <= t < outer_rl_upto(a, b, n).len() ==> (((#[trigger] outer_rl_upto(a, b, n)[t]).0
                matches Some(ia) ==> ia < a.len()) && (outer_rl_upto(a, b, n)[t].1 matches Some(
                ib,
            ) ==> ib < n)),
    decreases n,
{
    if n > 0 {
        lemma_outer_rl_upto_bounds(a, b, n - 1);
        crate::relation::lemma_positions_upto_increasing(a, b[n - 1], a.len() as int);
        let prev = outer_rl_upto(a, b, n - 1);
        let whole = outer_rl_upto(a, b, n);
        let row = outer_rl_row(a, b[n - 1], (n - 1) as usize);
        assert forall|t: int| 0 <= t < whole.len() implies (((#[trigger] whole[t]).0 matches
            Some(ia) ==> ia < a.len()) && (whole[t].1 matches Some(ib) ==> ib < n)) by {
            if t < prev.len() {
                assert(whole[t] == prev[t]);
            } else {
                assert(whole[t] == row[t - prev.len()]);
                if positions(a, b[n - 1]).len() > 0 {
                    assert(positions(a, b[n - 1])[t - prev.len()] < a.len());
                }
            }
        }
    }
}

/// Membership in the deduplicated merge: exactly the elements of the base
/// and of the merged prefix.
pub proof fn lemma_dedup_membership(
    base: Seq<(Option<usize>, Option<usize>)>,
    add: Seq<(Option<usize>, Option<usize>)>,
    n: int,
    x: (Option<usize>, Option<usize>),
)
    requires
        n <= add.len(),
    ensures
        dedup_append_upto(base, add, n).contains(x) <==> (base.contains(x) || exists|t: int|
            0 <= t < n && add[t] == x),
    decreases n,
{
    if n > 0 {
        lemma_dedup_membership(base, add, n - 1, x);
        let prev = dedup_append_upto(base, add, n - 1);
        let whole = dedup_append_upto(base, add, n);
        if whole.contains(x) {
            let t = choose|t: int| 0 <= t < whole.len() && whole[t] == x;
            if t < prev.len() {
                assert(prev[t] == x);
                assert(prev.contains(x));
            } else {
                assert(x == add[n - 1]);
            }
        }
        if base.contains(x) || exists|t: int| 0 <= t < n && add[t] == x {
            if base.contains(x) || exists|t: int| 0 <= t < n - 1 && add[t] == x {
                assert(prev.contains(x));
                let t = choose|t: int| 0 <= t < prev.len() && prev[t] == x;
                assert(whole[t] == x);
                assert(whole.contains(x));
            } else {
                assert(add[n - 1] == x);
                if prev.contains(x) {
                    let t = choose|t: int| 0 <= t < prev.len() && prev[t] == x;
                    assert(whole[t] == x);
                } else {
                    assert(whole[whole.len() - 1] == x);
                }
                assert(whole.contains(x));
            }
        }
    }
}

/// Every merged outer tuple indexes, when present, rows inside `a` and `b`.
pub proof fn lemma_outer_merged_bounds(a: Seq<Option<ValView>>, b: Seq<Option<ValView>>)
    requires
        a.len() <= usize::MAX,
        b.len() <= usize::MAX,
    ensures
        forall|t: int|
            0 <= t < outer_merged(a, b).len() ==> (((#[trigger] outer_merged(a, b)[t]).0 matches
                Some(ia) ==> ia < a.len()) && (outer_merged(a, b)[t].1 matches Some(ib) ==> ib
                < b.len())),
{
    let lr = outer_lr(a, b);
    let rl = outer_rl(a, b);
    lemma_outer_lr_upto_bounds(a, b, a.len() as int);
    lemma_outer_rl_upto_bounds(a, b, b.len() as int);
    assert forall|t: int| 0 <= t < outer_merged(a, b).len() implies (((#[trigger] outer_merged(
        a,
        b,
    )[t]).0 matches Some(ia) ==> ia < a.len()) && (outer_merged(a, b)[t].1 matches Some(ib)
        ==> ib < b.len())) by {
        let x = outer_merged(a, b)[t];
        assert(outer_merged(a, b).contains(x));
        lemma_dedup_membership(lr, rl, rl.len() as int, x);
        if lr.contains(x) {
            let u = choose|u: int| 0 <= u < lr.len() && lr[u] == x;
        } else {
            let u = choose|u: int| 0 <= u < rl.len() && rl[u] == x;
            assert(rl[u] == x);
        }
    }
}

} // verus!
