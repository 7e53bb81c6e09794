//! The laws of the join engine, stated over the same spec functions the
//! executable contracts use and proved once for all inputs.

use vstd::prelude::*;

use crate::join::inner_tuples_cols;
use crate::relation::lemma_positions_upto_contains;
use crate::relation::lemma_positions_upto_increasing;
use crate::relation::positions;
use crate::relation::positions_upto;
use crate::tuples::inner_row;
use crate::tuples::dedup_append_upto;
use crate::tuples::left_row;
use crate::tuples::lemma_dedup_membership;
use crate::tuples::outer_lr;
use crate::tuples::outer_lr_row;
use crate::tuples::outer_lr_upto;
use crate::tuples::outer_merged;
use crate::tuples::outer_rl;
use crate::tuples::outer_rl_row;
use crate::tuples::outer_rl_upto;
use crate::tuples::left_tuples;
use crate::tuples::left_tuples_upto;
use crate::tuples::inner_tuples;
use crate::tuples::inner_tuples_upto;
use crate::value::ValView;

verus! {

/// The number of build rows join-equal to `k`: `positions` holds exactly the
/// matching indices, each once, in increasing order.
pub open spec fn row_match_count(b: Seq<Option<ValView>>, k: Option<ValView>) -> nat {
    positions(b, k).len()
}

/// The number of `(i, j)` pairs with `a[i]` join-equal to `b[j]`, summed
/// over the first `n` probe rows.
pub open spec fn match_count_upto(
    a: Seq<Option<ValView>>,
    b: Seq<Option<ValView>>,
    n: int,
) -> nat
    decreases n,
{
    if n <= 0 {
        0
    } else {
        match_count_upto(a, b, n - 1) + row_match_count(b, a[n - 1])
    }
}

/// The number of `(i, j)` pairs with `a[i]` join-equal to `b[j]`, null-null
/// pairs included.
pub open spec fn match_count(a: Seq<Option<ValView>>, b: Seq<Option<ValView>>) -> nat {
    match_count_upto(a, b, a.len() as int)
}

proof fn lemma_inner_cardinality_upto(
    a: Seq<Option<ValView>>,
    b: Seq<Option<ValView>>,
    swap: bool,
    n: int,
)
    ensures
        inner_tuples_upto(a, b, swap, n).len() == match_count_upto(a, b, n),
    decreases n,
{
    if n > 0 {
        lemma_inner_cardinality_upto(a, b, swap, n - 1);
    }
}

/// Inner-join cardinality: the number of inner-join tuples equals the
/// number of `(i, j)` pairs with `a[i]` join-equal to `b[j]`, null-null
/// pairs included, whichever side is hashed.
pub proof fn lemma_inner_join_cardinality(
    a: Seq<Option<ValView>>,
    b: Seq<Option<ValView>>,
    swap: bool,
)
    ensures
        inner_tuples(a, b, swap).len() == match_count(a, b),
{
    lemma_inner_cardinality_upto(a, b, swap, a.len() as int);
}

proof fn lemma_inner_upto_membership(
    a: Seq<Option<ValView>>,
    b: Seq<Option<ValView>>,
    swap: bool,
    n: int,
    ia: usize,
    ib: usize,
)
    requires
        n <= a.len(),
        n <= usize::MAX,
        b.len() <= usize::MAX,
    ensures
        inner_tuples_upto(a, b, swap, n).contains(
            if swap {
                (ib, ia)
            } else {
                (ia, ib)
            },
        ) <==> (ia < n && ib < b.len() && a[ia as int] == b[ib as int]),
    decreases n,
{
    let pair = if swap {
        (ib, ia)
    } else {
        (ia, ib)
    };
    if n > 0 {
        lemma_inner_upto_membership(a, b, swap, n - 1, ia, ib);
        let prev = inner_tuples_upto(a, b, swap, n - 1);
        let whole = inner_tuples_upto(a, b, swap, n);
        let row = inner_row(b, a[n - 1], (n - 1) as usize, swap);
        let ps = positions(b, a[n - 1]);
        if whole.contains(pair) {
            let t = choose|t: int| 0 <= t < whole.len() && whole[t] == pair;
            if t < prev.len() {
                assert(prev[t] == pair);
                assert(prev.contains(pair));
            } else {
                assert(row[t - prev.len()] == pair);
                let u = t - prev.len();
                assert(ps[u] == (if swap {
                    pair.0
                } else {
                    pair.1
                }));
                assert(ps[u] == ib && ia == n - 1);
                assert(ps.contains(ib));
                lemma_positions_upto_contains(b, a[n - 1], b.len() as int, ib);
            }
        }
        if ia < n && ib < b.len() && a[ia as int] == b[ib as int] {
            if ia < n - 1 {
                assert(prev.contains(pair));
                let t = choose|t: int| 0 <= t < prev.len() && prev[t] == pair;
                assert(whole[t] == pair);
                assert(whole.contains(pair));
            } else {
                lemma_positions_upto_contains(b, a[n - 1], b.len() as int, ib);
                assert(ps.contains(ib));
                let u = choose|u: int| 0 <= u < ps.len() && ps[u] == ib;
                assert(row[u] == pair);
                assert(whole[prev.len() + u] == pair);
                assert(whole.contains(pair));
            }
        }
    }
}

/// Inner-join membership: the tuple collection holds the pair for `(ia,
/// ib)`, in the order the `swap` flag dictates, exactly when the two rows'
/// keys are join-equal.
pub proof fn lemma_inner_join_membership(
    a: Seq<Option<ValView>>,
    b: Seq<Option<ValView>>,
    swap: bool,
    ia: usize,
    ib: usize,
)
    requires
        a.len() <= usize::MAX,
        b.len() <= usize::MAX,
    ensures
        inner_tuples(a, b, swap).contains(
            if swap {
                (ib, ia)
            } else {
                (ia, ib)
            },
        ) <==> (ia < a.len() && ib < b.len() && a[ia as int] == b[ib as int]),
{
    lemma_inner_upto_membership(a, b, swap, a.len() as int, ia, ib);
}

/// Swap invariance: the inner join of `l` against `r` and the inner join of
/// `r` against `l` hold exactly the same row pairs, with the left and right
/// indices exchanged, whichever side either run chooses to hash.
pub proof fn lemma_inner_join_swap_invariance(
    l: Seq<Option<ValView>>,
    r: Seq<Option<ValView>>,
)
    requires
        l.len() <= usize::MAX,
        r.len() <= usize::MAX,
    ensures
        forall|i: usize, j: usize|
            inner_tuples_cols(l, r).contains((i, j)) <==> inner_tuples_cols(r, l).contains(
                (j, i),
            ),
{
    assert forall|i: usize, j: usize|
        inner_tuples_cols(l, r).contains((i, j)) <==> inner_tuples_cols(r, l).contains(
            (j, i),
        ) by {
        if l.len() > r.len() {
            lemma_inner_join_membership(l, r, false, i, j);
        } else {
            lemma_inner_join_membership(r, l, true, j, i);
        }
        if r.len() > l.len() {
            lemma_inner_join_membership(r, l, false, j, i);
        } else {
            lemma_inner_join_membership(l, r, true, i, j);
        }
    }
}

} // verus!

verus! {

proof fn lemma_left_upto_membership(
    a: Seq<Option<ValView>>,
    b: Seq<Option<ValView>>,
    n: int,
    ia: usize,
    ob: Option<usize>,
)
    requires
        n <= a.len(),
        n <= usize::MAX,
        b.len() <= usize::MAX,
    ensures
        left_tuples_upto(a, b, n).contains((ia, ob)) <==> (ia < n && match ob {
            Some(ib) => ib < b.len() && a[ia as int] == b[ib as int],
            None => positions(b, a[ia as int]).len() == 0,
        }),
    decreases n,
{
    let pair = (ia, ob);
    if n > 0 {
        lemma_left_upto_membership(a, b, n - 1, ia, ob);
        let prev = left_tuples_upto(a, b, n - 1);
        let whole = left_tuples_upto(a, b, n);
        let row = left_row(b, a[n - 1], (n - 1) as usize);
        let ps = positions(b, a[n - 1]);
        if whole.contains(pair) {
            let t = choose|t: int| 0 <= t < whole.len() && whole[t] == pair;
            if t < prev.len() {
                assert(prev[t] == pair);
                assert(prev.contains(pair));
            } else {
                let u = t - prev.len();
                assert(row[u] == pair);
                if ps.len() == 0 {
                    assert(pair == (((n - 1) as usize), None::<usize>));
                } else {
                    assert(pair == (((n - 1) as usize), Some(ps[u])));
                    lemma_positions_upto_contains(b, a[n - 1], b.len() as int, ps[u]);
                    assert(ps.contains(ps[u]));
                }
            }
        }
        if ia < n && match ob {
            Some(ib) => ib < b.len() && a[ia as int] == b[ib as int],
            None => positions(b, a[ia as int]).len() == 0,
        } {
            if ia < n - 1 {
                assert(prev.contains(pair));
                let t = choose|t: int| 0 <= t < prev.len() && prev[t] == pair;
                assert(whole[t] == pair);
                assert(whole.contains(pair));
            } else {
                match ob {
                    None => {
                        assert(ps.len() == 0);
                        assert(row[0] == pair);
                        assert(whole[prev.len() as int] == pair);
                        assert(whole.contains(pair));
                    },
                    Some(ib) => {
                        lemma_positions_upto_contains(b, a[n - 1], b.len() as int, ib);
                        assert(ps.contains(ib));
                        let u = choose|u: int| 0 <= u < ps.len() && ps[u] == ib;
                        assert(row[u] == pair);
                        assert(whole[prev.len() + u] == pair);
                        assert(whole.contains(pair));
                    },
                }
            }
        }
    }
}

proof fn lemma_left_upto_no_dup(a: Seq<Option<ValView>>, b: Seq<Option<ValView>>, n: int)
    requires
        n <= a.len(),
        n <= usize::MAX,
        b.len() <= usize::MAX,
    ensures
        forall|t1: int, t2: int|
            0 <= t1 < t2 < left_tuples_upto(a, b, n).len() ==> left_tuples_upto(a, b, n)[t1]
                != left_tuples_upto(a, b, n)[t2],
    decreases n,
{
    if n > 0 {
        lemma_left_upto_no_dup(a, b, n - 1);
        crate::tuples::lemma_left_upto_bounds(a, b, n - 1);
        lemma_positions_upto_increasing(b, a[n - 1], b.len() as int);
        let prev = left_tuples_upto(a, b, n - 1);
        let whole = left_tuples_upto(a, b, n);
        let row = left_row(b, a[n - 1], (n - 1) as usize);
        let ps = positions(b, a[n - 1]);
        assert forall|t1: int, t2: int| 0 <= t1 < t2 < whole.len() implies whole[t1]
            != whole[t2] by {
            if t2 < prev.len() {
                assert(whole[t1] == prev[t1] && whole[t2] == prev[t2]);
            } else if t1 < prev.len() {
                assert(whole[t1] == prev[t1] && whole[t2] == row[t2 - prev.len()]);
                assert(prev[t1].0 < n - 1);
                assert(row[t2 - prev.len()].0 == (n - 1) as usize);
            } else {
                assert(whole[t1] == row[t1 - prev.len()] && whole[t2] == row[t2 - prev.len()]);
                assert(ps.len() > 0);
                assert(ps[t1 - prev.len()] < ps[t2 - prev.len()]);
            }
        }
    }
}

/// The witness tuple of left row `ia`: its first match when one exists,
/// else the row's single null-right tuple.  Its left index is `ia` itself.
pub open spec fn left_probe_tuple(
    a: Seq<Option<ValView>>,
    b: Seq<Option<ValView>>,
    ia: int,
) -> (usize, Option<usize>) {
    if positions(b, a[ia]).len() == 0 {
        (ia as usize, None)
    } else {
        (ia as usize, Some(positions(b, a[ia])[0]))
    }
}

/// Left-join coverage: every left row index appears at least once (its
/// witness tuple, whose left index is that row, is in the collection); a
/// row appears with an absent right side exactly when it has no match; and
/// no tuple is repeated, so unmatched rows appear exactly once.
pub proof fn lemma_left_join_coverage(a: Seq<Option<ValView>>, b: Seq<Option<ValView>>)
    requires
        a.len() <= usize::MAX,
        b.len() <= usize::MAX,
    ensures
        forall|ia: int|
            0 <= ia < a.len() ==> #[trigger] left_tuples(a, b).contains(
                left_probe_tuple(a, b, ia),
            ),
        forall|ia: usize, ob: Option<usize>|
            left_tuples(a, b).contains((ia, ob)) <==> (ia < a.len() && match ob {
                Some(ib) => ib < b.len() && a[ia as int] == b[ib as int],
                None => positions(b, a[ia as int]).len() == 0,
            }),
        forall|t1: int, t2: int|
            0 <= t1 < t2 < left_tuples(a, b).len() ==> left_tuples(a, b)[t1] != left_tuples(
                a,
                b,
            )[t2],
{
    assert forall|ia: usize, ob: Option<usize>|
        left_tuples(a, b).contains((ia, ob)) <==> (ia < a.len() && match ob {
            Some(ib) => ib < b.len() && a[ia as int] == b[ib as int],
            None => positions(b, a[ia as int]).len() == 0,
        }) by {
        lemma_left_upto_membership(a, b, a.len() as int, ia, ob);
    }
    lemma_left_upto_no_dup(a, b, a.len() as int);
    assert forall|ia: int| 0 <= ia < a.len() implies #[trigger] left_tuples(a, b).contains(
        left_probe_tuple(a, b, ia),
    ) by {
        let iau = ia as usize;
        let ps = positions(b, a[ia]);
        if ps.len() == 0 {
            assert(left_tuples(a, b).contains((iau, None::<usize>)));
        } else {
            let ib = ps[0];
            lemma_positions_upto_contains(b, a[ia], b.len() as int, ib);
            assert(ps.contains(ib));
            assert(left_tuples(a, b).contains((iau, Some(ib))));
        }
    }
}

} // verus!

verus! {

/// What a merged outer tuple means: a join-equal row pair, an unmatched
/// left row, or an unmatched right row.
pub open spec fn outer_pair_ok(
    a: Seq<Option<ValView>>,
    b: Seq<Option<ValView>>,
    x: (Option<usize>, Option<usize>),
) -> bool {
    match x {
        (Some(ia), Some(ib)) => ia < a.len() && ib < b.len() && a[ia as int] == b[ib as int],
        (Some(ia), None) => ia < a.len() && positions(b, a[ia as int]).len() == 0,
        (None, Some(ib)) => ib < b.len() && positions(a, b[ib as int]).len() == 0,
        (None, None) => false,
    }
}

proof fn lemma_outer_lr_upto_membership(
    a: Seq<Option<ValView>>,
    b: Seq<Option<ValView>>,
    n: int,
    x: (Option<usize>, Option<usize>),
)
    requires
        n <= a.len(),
        n <= usize::MAX,
        b.len() <= usize::MAX,
    ensures
        outer_lr_upto(a, b, n).contains(x) <==> (match x {
            (Some(ia), Some(ib)) => ia < n && ib < b.len() && a[ia as int] == b[ib as int],
            (Some(ia), None) => ia < n && positions(b, a[ia as int]).len() == 0,
            _ => false,
        }),
    decreases n,
{
    if n > 0 {
        lemma_outer_lr_upto_membership(a, b, n - 1, x);
        let prev = outer_lr_upto(a, b, n - 1);
        let whole = outer_lr_upto(a, b, n);
        let row = outer_lr_row(b, a[n - 1], (n - 1) as usize);
        let ps = positions(b, a[n - 1]);
        if whole.contains(x) {
            let t = choose|t: int| 0 <= t < whole.len() && whole[t] == x;
            if t < prev.len() {
                assert(prev[t] == x);
                assert(prev.contains(x));
            } else {
                let u = t - prev.len();
                assert(row[u] == x);
                if ps.len() == 0 {
                    assert(x == (Some((n - 1) as usize), None::<usize>));
                } else {
                    assert(x == (Some((n - 1) as usize), Some(ps[u])));
                    lemma_positions_upto_contains(b, a[n - 1], b.len() as int, ps[u]);
                    assert(ps.contains(ps[u]));
                }
            }
        }
        if match x {
            (Some(ia), Some(ib)) => ia < n && ib < b.len() && a[ia as int] == b[ib as int],
            (Some(ia), None) => ia < n && positions(b, a[ia as int]).len() == 0,
            _ => false,
        } {
            let ia = x.0->0;
            if ia < n - 1 {
                assert(prev.contains(x));
                let t = choose|t: int| 0 <= t < prev.len() && prev[t] == x;
                assert(whole[t] == x);
                assert(whole.contains(x));
            } else {
                match x.1 {
                    None => {
                        assert(ps.len() == 0);
                        assert(row[0] == x);
                        assert(whole[prev.len() as int] == x);
                        assert(whole.contains(x));
                    },
                    Some(ib) => {
                        lemma_positions_upto_contains(b, a[n - 1], b.len() as int, ib);
                        assert(ps.contains(ib));
                        let u = choose|u: int| 0 <= u < ps.len() && ps[u] == ib;
                        assert(row[u] == x);
                        assert(whole[prev.len() + u] == x);
                        assert(whole.contains(x));
                    },
                }
            }
        }
    }
}

proof fn lemma_outer_rl_upto_membership(
    a: Seq<Option<ValView>>,
    b: Seq<Option<ValView>>,
    n: int,
    x: (Option<usize>, Option<usize>),
)
    requires
        n <= b.len(),
        n <= usize::MAX,
        a.len() <= usize::MAX,
    ensures
        outer_rl_upto(a, b, n).contains(x) <==> (match x {
            (Some(ia), Some(ib)) => ib < n && ia < a.len() && a[ia as int] == b[ib as int],
            (None, Some(ib)) => ib < n && positions(a, b[ib as int]).len() == 0,
            _ => false,
        }),
    decreases n,
{
    if n > 0 {
        lemma_outer_rl_upto_membership(a, b, n - 1, x);
        let prev = outer_rl_upto(a, b, n - 1);
        let whole = outer_rl_upto(a, b, n);
        let row = outer_rl_row(a, b[n - 1], (n - 1) as usize);
        let ps = positions(a, b[n - 1]);
        if whole.contains(x) {
            let t = choose|t: int| 0 <= t < whole.len() && whole[t] == x;
            if t < prev.len() {
                assert(prev[t] == x);
                assert(prev.contains(x));
            } else {
                let u = t - prev.len();
                assert(row[u] == x);
                if ps.len() == 0 {
                    assert(x == (None::<usize>, Some((n - 1) as usize)));
                } else {
                    assert(x == (Some(ps[u]), Some((n - 1) as usize)));
                    lemma_positions_upto_contains(a, b[n - 1], a.len() as int, ps[u]);
                    assert(ps.contains(ps[u]));
                }
            }
        }
        if match x {
            (Some(ia), Some(ib)) => ib < n && ia < a.len() && a[ia as int] == b[ib as int],
            (None, Some(ib)) => ib < n && positions(a, b[ib as int]).len() == 0,
            _ => false,
        } {
            let ib = x.1->0;
            if ib < n - 1 {
                assert(prev.contains(x));
                let t = choose|t: int| 0 <= t < prev.len() && prev[t] == x;
                assert(whole[t] == x);
                assert(whole.contains(x));
            } else {
                match x.0 {
                    None => {
                        assert(ps.len() == 0);
                        assert(row[0] == x);
                        assert(whole[prev.len() as int] == x);
                        assert(whole.contains(x));
                    },
                    Some(ia) => {
                        lemma_positions_upto_contains(a, b[n - 1], a.len() as int, ia);
                        assert(ps.contains(ia));
                        let u = choose|u: int| 0 <= u < ps.len() && ps[u] == ia;
                        assert(row[u] == x);
                        assert(whole[prev.len() + u] == x);
                        assert(whole.contains(x));
                    },
                }
            }
        }
    }
}

proof fn lemma_outer_lr_upto_no_dup(a: Seq<Option<ValView>>, b: Seq<Option<ValView>>, n: int)
    requires
        n <= a.len(),
        n <= usize::MAX,
        b.len() <= usize::MAX,
    ensures
        forall|t1: int, t2: int|
            0 <= t1 < t2 < outer_lr_upto(a, b, n).len() ==> outer_lr_upto(a, b, n)[t1]
                != outer_lr_upto(a, b, n)[t2],
    decreases n,
{
    if n > 0 {
        lemma_outer_lr_upto_no_dup(a, b, n - 1);
        crate::tuples::lemma_outer_lr_upto_bounds(a, b, n - 1);
        lemma_positions_upto_increasing(b, a[n - 1], b.len() as int);
        let prev = outer_lr_upto(a, b, n - 1);
        let whole = outer_lr_upto(a, b, n);
        let row = outer_lr_row(b, a[n - 1], (n - 1) as usize);
        let ps = positions(b, a[n - 1]);
        assert forall|t1: int, t2: int| 0 <= t1 < t2 < whole.len() implies whole[t1]
            != whole[t2] by {
            if t2 < prev.len() {
                assert(whole[t1] == prev[t1] && whole[t2] == prev[t2]);
            } else if t1 < prev.len() {
                assert(whole[t1] == prev[t1] && whole[t2] == row[t2 - prev.len()]);
                assert(prev[t1].0 matches Some(ia) ==> ia < n - 1);
                assert(row[t2 - prev.len()].0 == Some((n - 1) as usize));
            } else {
                assert(whole[t1] == row[t1 - prev.len()] && whole[t2] == row[t2 - prev.len()]);
                assert(ps.len() > 0);
                assert(ps[t1 - prev.len()] < ps[t2 - prev.len()]);
            }
        }
    }
}

proof fn lemma_dedup_no_dup(
    base: Seq<(Option<usize>, Option<usize>)>,
    add: Seq<(Option<usize>, Option<usize>)>,
    n: int,
)
    requires
        n <= add.len(),
        forall|t1: int, t2: int| 0 <= t1 < t2 < base.len() ==> base[t1] != base[t2],
    ensures
        forall|t1: int, t2: int|
            0 <= t1 < t2 < dedup_append_upto(base, add, n).len() ==> dedup_append_upto(
                base,
                add,
                n,
            )[t1] != dedup_append_upto(base, add, n)[t2],
    decreases n,
{
    if n > 0 {
        lemma_dedup_no_dup(base, add, n - 1);
        let prev = dedup_append_upto(base, add, n - 1);
        let whole = dedup_append_upto(base, add, n);
        if !prev.contains(add[n - 1]) {
            assert forall|t1: int, t2: int| 0 <= t1 < t2 < whole.len() implies whole[t1]
                != whole[t2] by {
                if t2 < prev.len() {
                    assert(whole[t1] == prev[t1] && whole[t2] == prev[t2]);
                } else {
                    assert(whole[t2] == add[n - 1] && whole[t1] == prev[t1]);
                    assert(!prev.contains(whole[t2]));
                    if prev[t1] == whole[t2] {
                        assert(prev.contains(whole[t2]));
                    }
                }
            }
        }
    }
}

/// Outer-join coverage and uniqueness: a tuple is in the merged collection
/// exactly when it is a join-equal row pair, an unmatched left row, or an
/// unmatched right row; no tuple is repeated, so matched pairs found by
/// both directional passes collapse to one entry and unmatched rows each
/// appear exactly once; and every row of both tables is represented.
pub proof fn lemma_outer_join_coverage(a: Seq<Option<ValView>>, b: Seq<Option<ValView>>)
    requires
        a.len() <= usize::MAX,
        b.len() <= usize::MAX,
    ensures
        forall|x: (Option<usize>, Option<usize>)|
            outer_merged(a, b).contains(x) <==> outer_pair_ok(a, b, x),
        forall|t1: int, t2: int|
            0 <= t1 < t2 < outer_merged(a, b).len() ==> outer_merged(a, b)[t1] != outer_merged(
                a,
                b,
            )[t2],
        forall|ia: int|
            0 <= ia < a.len() ==> #[trigger] outer_merged(a, b).contains(
                outer_left_witness(a, b, ia),
            ),
        forall|ib: int|
            0 <= ib < b.len() ==> #[trigger] outer_merged(a, b).contains(
                outer_right_witness(a, b, ib),
            ),
{
    let lr = outer_lr(a, b);
    let rl = outer_rl(a, b);
    assert forall|x: (Option<usize>, Option<usize>)|
        outer_merged(a, b).contains(x) <==> outer_pair_ok(a, b, x) by {
        lemma_dedup_membership(lr, rl, rl.len() as int, x);
        lemma_outer_lr_upto_membership(a, b, a.len() as int, x);
        lemma_outer_rl_upto_membership(a, b, b.len() as int, x);
        if outer_merged(a, b).contains(x) && !lr.contains(x) {
            let t = choose|t: int| 0 <= t < rl.len() && rl[t] == x;
            assert(rl.contains(x));
        }
        if outer_pair_ok(a, b, x) {
            if lr.contains(x) || rl.contains(x) {
                if rl.contains(x) {
                    let t = choose|t: int| 0 <= t < rl.len() && rl[t] == x;
                }
            }
        }
    }
    lemma_outer_lr_upto_no_dup(a, b, a.len() as int);
    lemma_dedup_no_dup(lr, rl, rl.len() as int);
    assert forall|ia: int| 0 <= ia < a.len() implies #[trigger] outer_merged(a, b).contains(
        outer_left_witness(a, b, ia),
    ) by {
        let ps = positions(b, a[ia]);
        if ps.len() > 0 {
            lemma_positions_upto_contains(b, a[ia], b.len() as int, ps[0]);
            assert(ps.contains(ps[0]));
        }
        assert(outer_pair_ok(a, b, outer_left_witness(a, b, ia)));
    }
    assert forall|ib: int| 0 <= ib < b.len() implies #[trigger] outer_merged(a, b).contains(
        outer_right_witness(a, b, ib),
    ) by {
        let ps = positions(a, b[ib]);
        if ps.len() > 0 {
            lemma_positions_upto_contains(a, b[ib], a.len() as int, ps[0]);
            assert(ps.contains(ps[0]));
        }
        assert(outer_pair_ok(a, b, outer_right_witness(a, b, ib)));
    }
}

/// The witness tuple of left row `ia` in the outer join: its first match,
/// or its unmatched entry.  Its left index is `ia` itself.
pub open spec fn outer_left_witness(
    a: Seq<Option<ValView>>,
    b: Seq<Option<ValView>>,
    ia: int,
) -> (Option<usize>, Option<usize>) {
    if positions(b, a[ia]).len() == 0 {
        (Some(ia as usize), None)
    } else {
        (Some(ia as usize), Some(positions(b, a[ia])[0]))
    }
}

/// The witness tuple of right row `ib` in the outer join: its first match,
/// or its unmatched entry.  Its right index is `ib` itself.
pub open spec fn outer_right_witness(
    a: Seq<Option<ValView>>,
    b: Seq<Option<ValView>>,
    ib: int,
) -> (Option<usize>, Option<usize>) {
    if positions(a, b[ib]).len() == 0 {
        (None, Some(ib as usize))
    } else {
        (Some(positions(a, b[ib])[0]), Some(ib as usize))
    }
}

/// Null equality: a null key on each side matches the two rows under all
/// three join kinds, whichever side is hashed.
pub proof fn lemma_null_keys_match(
    l: Seq<Option<ValView>>,
    r: Seq<Option<ValView>>,
    ia: usize,
    ib: usize,
)
    requires
        l.len() <= usize::MAX,
        r.len() <= usize::MAX,
        ia < l.len(),
        ib < r.len(),
        l[ia as int] is None,
        r[ib as int] is None,
    ensures
        inner_tuples_cols(l, r).contains((ia, ib)),
        left_tuples(l, r).contains((ia, Some(ib))),
        outer_merged(l, r).contains((Some(ia), Some(ib))),
{
    if l.len() > r.len() {
        lemma_inner_join_membership(l, r, false, ia, ib);
    } else {
        lemma_inner_join_membership(r, l, true, ib, ia);
    }
    lemma_left_upto_membership(l, r, l.len() as int, ia, Some(ib));
    lemma_outer_lr_upto_membership(l, r, l.len() as int, (Some(ia), Some(ib)));
    lemma_dedup_membership(
        outer_lr(l, r),
        outer_rl(l, r),
        outer_rl(l, r).len() as int,
        (Some(ia), Some(ib)),
    );
    let lr = outer_lr(l, r);
    assert(lr.contains((Some(ia), Some(ib))));
}

} // verus!

verus! {

/// The number of matches the first `n` right rows find in `a`.
pub open spec fn right_match_count_upto(
    a: Seq<Option<ValView>>,
    b: Seq<Option<ValView>>,
    n: int,
) -> nat
    decreases n,
{
    if n <= 0 {
        0
    } else {
        right_match_count_upto(a, b, n - 1) + positions(a, b[n - 1]).len()
    }
}

/// The number of right rows among the first `n` with no match in `a`.
pub open spec fn unmatched_right_upto(
    a: Seq<Option<ValView>>,
    b: Seq<Option<ValView>>,
    n: int,
) -> nat
    decreases n,
{
    if n <= 0 {
        0
    } else {
        unmatched_right_upto(a, b, n - 1) + if positions(a, b[n - 1]).len() == 0 {
            1nat
        } else {
            0nat
        }
    }
}

proof fn lemma_match_count_upto_agree(
    a1: Seq<Option<ValView>>,
    a2: Seq<Option<ValView>>,
    b: Seq<Option<ValView>>,
    n: int,
)
    requires
        forall|i: int| 0 <= i < n ==> a1[i] == a2[i],
    ensures
        match_count_upto(a1, b, n) == match_count_upto(a2, b, n),
    decreases n,
{
    if n > 0 {
        lemma_match_count_upto_agree(a1, a2, b, n - 1);
    }
}

proof fn lemma_right_match_count_snoc(
    a: Seq<Option<ValView>>,
    c: Option<ValView>,
    b: Seq<Option<ValView>>,
    n: int,
)
    ensures
        right_match_count_upto(a.push(c), b, n) == right_match_count_upto(a, b, n)
            + positions_upto(b, c, n).len(),
    decreases n,
{
    if n > 0 {
        lemma_right_match_count_snoc(a, c, b, n - 1);
        crate::relation::lemma_positions_snoc(a, c, b[n - 1]);
    }
}

proof fn lemma_right_match_count_empty(b: Seq<Option<ValView>>, n: int)
    ensures
        right_match_count_upto(Seq::empty(), b, n) == 0,
    decreases n,
{
    if n > 0 {
        lemma_right_match_count_empty(b, n - 1);
    }
}

/// Counting the join-equal `(i, j)` pairs row by row on the left gives the
/// same total as row by row on the right.
proof fn lemma_match_count_symmetry(a: Seq<Option<ValView>>, b: Seq<Option<ValView>>)
    ensures
        match_count(a, b) == right_match_count_upto(a, b, b.len() as int),
    decreases a.len(),
{
    if a.len() == 0 {
        lemma_right_match_count_empty(b, b.len() as int);
        assert(a =~= Seq::empty());
    } else {
        let a0 = a.drop_last();
        let c = a.last();
        lemma_match_count_symmetry(a0, b);
        lemma_match_count_upto_agree(a, a0, b, a0.len() as int);
        assert(a =~= a0.push(c));
        lemma_right_match_count_snoc(a0, c, b, b.len() as int);
        assert(match_count_upto(a, b, a.len() as int) == match_count_upto(
            a,
            b,
            a.len() as int - 1,
        ) + positions(b, c).len());
    }
}

proof fn lemma_outer_lr_len_single(a: Seq<Option<ValView>>, b: Seq<Option<ValView>>, n: int)
    requires
        0 <= n <= a.len(),
        forall|i: int| 0 <= i < a.len() ==> positions(b, #[trigger] a[i]).len() <= 1,
    ensures
        outer_lr_upto(a, b, n).len() == n,
    decreases n,
{
    if n > 0 {
        lemma_outer_lr_len_single(a, b, n - 1);
        assert(positions(b, a[n - 1]).len() <= 1);
        let row = outer_lr_row(b, a[n - 1], (n - 1) as usize);
        let ps = positions(b, a[n - 1]);
        if ps.len() == 0 {
            assert(row =~= seq![(Some((n - 1) as usize), None::<usize>)]);
            assert(row.len() == 1);
        } else {
            assert(row.len() == ps.len());
            assert(row.len() == 1);
        }
        assert(outer_lr_upto(a, b, n) == outer_lr_upto(a, b, n - 1) + row);
    }
}

proof fn lemma_outer_rl_shape_single(a: Seq<Option<ValView>>, b: Seq<Option<ValView>>, n: int)
    requires
        0 <= n <= b.len(),
        forall|j: int| 0 <= j < b.len() ==> positions(a, #[trigger] b[j]).len() <= 1,
    ensures
        outer_rl_upto(a, b, n).len() == n,
        forall|j: int|
            0 <= j < n ==> (#[trigger] outer_rl_upto(a, b, n)[j]).1 == Some(j as usize),
        forall|j: int|
            0 <= j < n ==> ((#[trigger] outer_rl_upto(a, b, n)[j]).0 is None <==> positions(
                a,
                b[j],
            ).len() == 0),
    decreases n,
{
    if n > 0 {
        lemma_outer_rl_shape_single(a, b, n - 1);
        assert(positions(a, b[n - 1]).len() <= 1);
        let prev = outer_rl_upto(a, b, n - 1);
        let whole = outer_rl_upto(a, b, n);
        let row = outer_rl_row(a, b[n - 1], (n - 1) as usize);
        let ps = positions(a, b[n - 1]);
        if ps.len() == 0 {
            assert(row =~= seq![(None::<usize>, Some((n - 1) as usize))]);
            assert(row.len() == 1);
        } else {
            assert(row.len() == ps.len());
            assert(row.len() == 1);
        }
        assert(whole == prev + row);
        assert forall|j: int| 0 <= j < n implies (#[trigger] whole[j]).1 == Some(j as usize)
            && (whole[j].0 is None <==> positions(a, b[j]).len() == 0) by {
            if j < n - 1 {
                assert(whole[j] == prev[j]);
            } else {
                assert(whole[j] == row[0]);
            }
        }
    }
}

proof fn lemma_dedup_count_single(a: Seq<Option<ValView>>, b: Seq<Option<ValView>>, n: int)
    requires
        n <= b.len(),
        a.len() <= usize::MAX,
        b.len() <= usize::MAX,
        forall|j: int| 0 <= j < b.len() ==> positions(a, #[trigger] b[j]).len() <= 1,
    ensures
        dedup_append_upto(outer_lr(a, b), outer_rl(a, b), n).len() == outer_lr(a, b).len()
            + unmatched_right_upto(a, b, n),
    decreases n,
{
    let lr = outer_lr(a, b);
    let rl = outer_rl(a, b);
    if n > 0 {
        lemma_dedup_count_single(a, b, n - 1);
        lemma_outer_rl_shape_single(a, b, b.len() as int);
        let prev = dedup_append_upto(lr, rl, n - 1);
        let x = rl[n - 1];
        assert(x.1 == Some((n - 1) as usize));
        lemma_dedup_membership(lr, rl, n - 1, x);
        if positions(a, b[n - 1]).len() == 0 {
            // The unmatched-right entry is new: the left-to-right pass never
            // emits an absent left side, and earlier right rows differ in
            // their right index.
            lemma_outer_lr_upto_membership(a, b, a.len() as int, x);
            assert(x.0 is None);
            assert(!lr.contains(x));
            if exists|t: int| 0 <= t < n - 1 && rl[t] == x {
                let t = choose|t: int| 0 <= t < n - 1 && rl[t] == x;
                assert(rl[t].1 == Some(t as usize));
                assert(false);
            }
            assert(!prev.contains(x));
        } else {
            // The matched pair was already found by the left-to-right pass.
            assert(!(x.0 is None));
            let ia = x.0->0;
            lemma_outer_rl_upto_membership(a, b, b.len() as int, x);
            assert(rl.contains(x)) by {
                assert(rl[n - 1] == x);
            }
            assert(ia < a.len() && a[ia as int] == b[n - 1]);
            lemma_outer_lr_upto_membership(a, b, a.len() as int, x);
            assert(lr.contains(x));
            assert(prev.contains(x));
        }
    }
}

proof fn lemma_unmatched_right_total(a: Seq<Option<ValView>>, b: Seq<Option<ValView>>, n: int)
    requires
        0 <= n <= b.len(),
        forall|j: int| 0 <= j < b.len() ==> positions(a, #[trigger] b[j]).len() <= 1,
    ensures
        unmatched_right_upto(a, b, n) + right_match_count_upto(a, b, n) == n,
    decreases n,
{
    if n > 0 {
        lemma_unmatched_right_total(a, b, n - 1);
        assert(positions(a, b[n - 1]).len() <= 1);
    }
}

/// Outer-join tuple count: when every row has at most one join-equal
/// counterpart on the other side, the merged collection holds exactly
/// `|left| + |right| - |matched pairs|` tuples.
pub proof fn lemma_outer_join_count(a: Seq<Option<ValView>>, b: Seq<Option<ValView>>)
    requires
        a.len() <= usize::MAX,
        b.len() <= usize::MAX,
        forall|i: int| 0 <= i < a.len() ==> positions(b, #[trigger] a[i]).len() <= 1,
        forall|j: int| 0 <= j < b.len() ==> positions(a, #[trigger] b[j]).len() <= 1,
    ensures
        outer_merged(a, b).len() + match_count(a, b) == a.len() + b.len(),
{
    lemma_outer_lr_len_single(a, b, a.len() as int);
    lemma_dedup_count_single(a, b, b.len() as int);
    lemma_unmatched_right_total(a, b, b.len() as int);
    lemma_match_count_symmetry(a, b);
    assert(outer_rl(a, b).len() == b.len()) by {
        lemma_outer_rl_shape_single(a, b, b.len() as int);
    }
}

} // verus!
