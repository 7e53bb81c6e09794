//! The type dispatcher and the three table-level joins.
//!
//! The two key columns' concrete element kinds are unknown until execution:
//! the dispatcher inspects both (they must agree, and floating-point keys
//! have no join implementation), lowers the columns to null-aware key
//! vectors, and invokes the probe engine.  The table-level joins then gather
//! both sides concurrently, coalesce the key columns for outer joins, and
//! assemble the output.

use vstd::prelude::*;

use crate::errors::JoinError;
use crate::frame::ColV;
use crate::frame::Column;
use crate::frame::ColumnData;
use crate::frame::DataFrame;
use crate::frame::col_of;
use crate::frame::col_idx_of;
use crate::frame::conv_bool;
use crate::frame::conv_i32;
use crate::frame::conv_i64;
use crate::frame::conv_text;
use crate::frame::conv_u32;
use crate::frame::df_has_col;
use crate::frame::df_height;
use crate::frame::finish_ok;
use crate::frame::finish_view;
use crate::frame::gather_idx_ok;
use crate::frame::take_view;
use crate::tuples::hash_join_tuples_inner;
use crate::tuples::hash_join_tuples_left;
use crate::tuples::hash_join_tuples_outer;
use crate::tuples::inner_left_idx;
use crate::tuples::inner_right_idx;
use crate::tuples::inner_tuples;
use crate::tuples::left_left_idx;
use crate::tuples::left_right_idx;
use crate::tuples::left_tuples;
use crate::tuples::outer_left_idx;
use crate::tuples::outer_merged;
use crate::tuples::outer_right_idx;
use crate::value::ElemKind;
use crate::value::KeyValue;
use crate::value::ValView;
use crate::value::key_views;

verus! {

/// Two key columns can be joined: same element kind, and not floating
/// point.
pub open spec fn keys_compatible(l: ColV, r: ColV) -> bool {
    l.kind == r.kind && l.kind != ElemKind::F64Bits
}

/// The inner-join tuples of two key columns: the shorter side is hashed,
/// and the `swap` flag keeps reported pairs as `(left, right)`.
pub open spec fn inner_tuples_cols(l: Seq<Option<ValView>>, r: Seq<Option<ValView>>) -> Seq<
    (usize, usize),
> {
    if l.len() > r.len() {
        inner_tuples(l, r, false)
    } else {
        inner_tuples(r, l, true)
    }
}

/// Lower a typed column to the null-aware key vector the probe engine
/// consumes.  Floating-point storage has no joinable key form.
fn extract_keys(data: &ColumnData) -> (r: Result<Vec<KeyValue>, JoinError>)
    ensures
        match r {
            Ok(v) => data.kind() != ElemKind::F64Bits && key_views(v@) == data.cells(),
            Err(e) => e == JoinError::UnsupportedKeyType && data.kind() == ElemKind::F64Bits,
        },
{
    match data {
        ColumnData::UInt32(v) => {
            let mut out: Vec<KeyValue> = Vec::new();
            let mut i: usize = 0;
            while i < v.len()
                invariant
                    i <= v@.len(),
                    out@.len() == i,
                    forall|t: int| 0 <= t < i ==> (#[trigger] out@[t]@) == conv_u32(v@[t]),
                decreases v@.len() - i,
            {
                match v[i] {
                    Some(x) => out.push(KeyValue::U32(x)),
                    None => out.push(KeyValue::Null),
                }
                i = i + 1;
            }
            proof {
                assert(key_views(out@) =~~= data.cells());
            }
            Ok(out)
        },
        ColumnData::Int32(v) => {
            let mut out: Vec<KeyValue> = Vec::new();
            let mut i: usize = 0;
            while i < v.len()
                invariant
                    i <= v@.len(),
                    out@.len() == i,
                    forall|t: int| 0 <= t < i ==> (#[trigger] out@[t]@) == conv_i32(v@[t]),
                decreases v@.len() - i,
            {
                match v[i] {
                    Some(x) => out.push(KeyValue::I32(x)),
                    None => out.push(KeyValue::Null),
                }
                i = i + 1;
            }
            proof {
                assert(key_views(out@) =~~= data.cells());
            }
            Ok(out)
        },
        ColumnData::Int64(v) => {
            let mut out: Vec<KeyValue> = Vec::new();
            let mut i: usize = 0;
            while i < v.len()
                invariant
                    i <= v@.len(),
                    out@.len() == i,
                    forall|t: int| 0 <= t < i ==> (#[trigger] out@[t]@) == conv_i64(v@[t]),
                decreases v@.len() - i,
            {
                match v[i] {
                    Some(x) => out.push(KeyValue::I64(x)),
                    None => out.push(KeyValue::Null),
                }
                i = i + 1;
            }
            proof {
                assert(key_views(out@) =~~= data.cells());
            }
            Ok(out)
        },
        ColumnData::Boolean(v) => {
            let mut out: Vec<KeyValue> = Vec::new();
            let mut i: usize = 0;
            while i < v.len()
                invariant
                    i <= v@.len(),
                    out@.len() == i,
                    forall|t: int| 0 <= t < i ==> (#[trigger] out@[t]@) == conv_bool(v@[t]),
                decreases v@.len() - i,
            {
                match v[i] {
                    Some(x) => out.push(KeyValue::Bool(x)),
                    None => out.push(KeyValue::Null),
                }
                i = i + 1;
            }
            proof {
                assert(key_views(out@) =~~= data.cells());
            }
            Ok(out)
        },
        ColumnData::Text(v) => {
            let mut out: Vec<KeyValue> = Vec::new();
            let mut i: usize = 0;
            while i < v.len()
                invariant
                    i <= v@.len(),
                    out@.len() == i,
                    forall|t: int| 0 <= t < i ==> (#[trigger] out@[t]@) == conv_text(v@[t]),
                decreases v@.len() - i,
            {
                match &v[i] {
                    Some(s) => out.push(KeyValue::Text(s.clone())),
                    None => out.push(KeyValue::Null),
                }
                i = i + 1;
            }
            proof {
                assert(key_views(out@) =~~= data.cells());
            }
            Ok(out)
        },
        ColumnData::F64Bits(_) => Err(JoinError::UnsupportedKeyType),
    }
}

/// The join capability of a key column: the three probe algorithms, each
/// null-aware, with the build side chosen by the stated rules.
pub trait HashJoin: View<V = ColV> {
    /// Inner-join this key column against another: the shorter side is
    /// hashed, the longer probed, and pairs are reported as
    /// `(left, right)`.
    fn hash_join_inner(&self, other: &Self) -> (r: Result<Vec<(usize, usize)>, JoinError>)
        ensures
            match r {
                Ok(v) => keys_compatible(self@, other@) && v@ == inner_tuples_cols(
                    self@.cells,
                    other@.cells,
                ),
                Err(e) => e == JoinError::UnsupportedKeyType && !keys_compatible(self@, other@),
            },
    ;

    /// Left-join this key column against another: hash the right relation,
    /// iterate this column in order.
    fn hash_join_left(&self, other: &Self) -> (r: Result<
        Vec<(usize, Option<usize>)>,
        JoinError,
    >)
        ensures
            match r {
                Ok(v) => keys_compatible(self@, other@) && v@ == left_tuples(
                    self@.cells,
                    other@.cells,
                ),
                Err(e) => e == JoinError::UnsupportedKeyType && !keys_compatible(self@, other@),
            },
    ;

    /// Outer-join this key column against another: both directional passes,
    /// merged into a deduplicated collection.
    fn hash_join_outer(&self, other: &Self) -> (r: Result<
        Vec<(Option<usize>, Option<usize>)>,
        JoinError,
    >)
        ensures
            match r {
                Ok(v) => keys_compatible(self@, other@) && v@ == outer_merged(
                    self@.cells,
                    other@.cells,
                ),
                Err(e) => (e == JoinError::UnsupportedKeyType && !keys_compatible(
                    self@,
                    other@,
                )) || (e == JoinError::WorkerFailure && keys_compatible(self@, other@)),
            },
            !keys_compatible(self@, other@) ==> r == Err::<
                Vec<(Option<usize>, Option<usize>)>,
                JoinError,
            >(JoinError::UnsupportedKeyType),
    ;
}

impl HashJoin for Column {
    /// Dispatch on the (equal) element kinds, hash the shorter side, and
    /// probe the longer.
    fn hash_join_inner(&self, other: &Column) -> (r: Result<Vec<(usize, usize)>, JoinError>)
        ensures
            match r {
                Ok(v) => keys_compatible(self@, other@) && v@ == inner_tuples_cols(
                    self@.cells,
                    other@.cells,
                ),
                Err(e) => e == JoinError::UnsupportedKeyType && !keys_compatible(self@, other@),
            },
    {
        if self.data.kind_of() != other.data.kind_of() {
            return Err(JoinError::UnsupportedKeyType);
        }
        let ka = match extract_keys(&self.data) {
            Ok(v) => v,
            Err(e) => {
                return Err(e);
            },
        };
        let kb = match extract_keys(&other.data) {
            Ok(v) => v,
            Err(e) => {
                return Err(e);
            },
        };
        if ka.len() > kb.len() {
            Ok(hash_join_tuples_inner(&ka, &kb, false))
        } else {
            Ok(hash_join_tuples_inner(&kb, &ka, true))
        }
    }

    fn hash_join_left(&self, other: &Column) -> (r: Result<
        Vec<(usize, Option<usize>)>,
        JoinError,
    >)
        ensures
            match r {
                Ok(v) => keys_compatible(self@, other@) && v@ == left_tuples(
                    self@.cells,
                    other@.cells,
                ),
                Err(e) => e == JoinError::UnsupportedKeyType && !keys_compatible(self@, other@),
            },
    {
        if self.data.kind_of() != other.data.kind_of() {
            return Err(JoinError::UnsupportedKeyType);
        }
        let ka = match extract_keys(&self.data) {
            Ok(v) => v,
            Err(e) => {
                return Err(e);
            },
        };
        let kb = match extract_keys(&other.data) {
            Ok(v) => v,
            Err(e) => {
                return Err(e);
            },
        };
        Ok(hash_join_tuples_left(&ka, &kb))
    }

    fn hash_join_outer(&self, other: &Column) -> (r: Result<
        Vec<(Option<usize>, Option<usize>)>,
        JoinError,
    >)
        ensures
            match r {
                Ok(v) => keys_compatible(self@, other@) && v@ == outer_merged(
                    self@.cells,
                    other@.cells,
                ),
                Err(e) => (e == JoinError::UnsupportedKeyType && !keys_compatible(
                    self@,
                    other@,
                )) || (e == JoinError::WorkerFailure && keys_compatible(self@, other@)),
            },
            !keys_compatible(self@, other@) ==> r == Err::<
                Vec<(Option<usize>, Option<usize>)>,
                JoinError,
            >(JoinError::UnsupportedKeyType),
    {
        if self.data.kind_of() != other.data.kind_of() {
            return Err(JoinError::UnsupportedKeyType);
        }
        let ka = match extract_keys(&self.data) {
            Ok(v) => v,
            Err(e) => {
                return Err(e);
            },
        };
        let kb = match extract_keys(&other.data) {
            Ok(v) => v,
            Err(e) => {
                return Err(e);
            },
        };
        hash_join_tuples_outer(&ka, &kb)
    }
}

} // verus!

verus! {

/// Both named key columns exist.
pub open spec fn join_inputs_ok(
    l: Seq<ColV>,
    r: Seq<ColV>,
    lon: Seq<char>,
    ron: Seq<char>,
) -> bool {
    df_has_col(l, lon) && df_has_col(r, ron)
}

/// The inner-join tuple collection of two tables joined on the named key
/// columns.
pub open spec fn inner_join_tuples_spec(
    l: Seq<ColV>,
    r: Seq<ColV>,
    lon: Seq<char>,
    ron: Seq<char>,
) -> Seq<(usize, usize)> {
    inner_tuples_cols(col_of(l, lon).cells, col_of(r, ron).cells)
}

/// The assembled inner-join output table.
pub open spec fn inner_join_view(
    l: Seq<ColV>,
    r: Seq<ColV>,
    lon: Seq<char>,
    ron: Seq<char>,
) -> Seq<ColV> {
    finish_view(
        take_view(l, inner_left_idx(inner_join_tuples_spec(l, r, lon, ron))),
        take_view(r, inner_right_idx(inner_join_tuples_spec(l, r, lon, ron))),
        ron,
    )
}

/// When an inner join succeeds.
pub open spec fn inner_join_ok(
    l: Seq<ColV>,
    r: Seq<ColV>,
    lon: Seq<char>,
    ron: Seq<char>,
) -> bool {
    &&& join_inputs_ok(l, r, lon, ron)
    &&& keys_compatible(col_of(l, lon), col_of(r, ron))
    &&& finish_ok(
        take_view(l, inner_left_idx(inner_join_tuples_spec(l, r, lon, ron))),
        take_view(r, inner_right_idx(inner_join_tuples_spec(l, r, lon, ron))),
        ron,
    )
}

/// The left-join tuple collection of two tables joined on the named key
/// columns.
pub open spec fn left_join_tuples_spec(
    l: Seq<ColV>,
    r: Seq<ColV>,
    lon: Seq<char>,
    ron: Seq<char>,
) -> Seq<(usize, Option<usize>)> {
    left_tuples(col_of(l, lon).cells, col_of(r, ron).cells)
}

/// The assembled left-join output table.
pub open spec fn left_join_view(
    l: Seq<ColV>,
    r: Seq<ColV>,
    lon: Seq<char>,
    ron: Seq<char>,
) -> Seq<ColV> {
    finish_view(
        take_view(l, left_left_idx(left_join_tuples_spec(l, r, lon, ron))),
        take_view(r, left_right_idx(left_join_tuples_spec(l, r, lon, ron))),
        ron,
    )
}

/// When a left join succeeds.
pub open spec fn left_join_ok(
    l: Seq<ColV>,
    r: Seq<ColV>,
    lon: Seq<char>,
    ron: Seq<char>,
) -> bool {
    &&& join_inputs_ok(l, r, lon, ron)
    &&& keys_compatible(col_of(l, lon), col_of(r, ron))
    &&& finish_ok(
        take_view(l, left_left_idx(left_join_tuples_spec(l, r, lon, ron))),
        take_view(r, left_right_idx(left_join_tuples_spec(l, r, lon, ron))),
        ron,
    )
}

/// The left gather positions of inner tuples, executably.
fn collect_inner_left(tups: &Vec<(usize, usize)>) -> (r: Vec<Option<usize>>)
    ensures
        r@ == inner_left_idx(tups@),
{
    let mut out: Vec<Option<usize>> = Vec::new();
    let mut k: usize = 0;
    while k < tups.len()
        invariant
            k <= tups@.len(),
            out@.len() == k,
            forall|t: int| 0 <= t < k ==> #[trigger] out@[t] == Some(tups@[t].0),
        decreases tups@.len() - k,
    {
        out.push(Some(tups[k].0));
        k = k + 1;
    }
    proof {
        assert(out@ =~= inner_left_idx(tups@));
    }
    out
}

/// The right gather positions of inner tuples, executably.
fn collect_inner_right(tups: &Vec<(usize, usize)>) -> (r: Vec<Option<usize>>)
    ensures
        r@ == inner_right_idx(tups@),
{
    let mut out: Vec<Option<usize>> = Vec::new();
    let mut k: usize = 0;
    while k < tups.len()
        invariant
            k <= tups@.len(),
            out@.len() == k,
            forall|t: int| 0 <= t < k ==> #[trigger] out@[t] == Some(tups@[t].1),
        decreases tups@.len() - k,
    {
        out.push(Some(tups[k].1));
        k = k + 1;
    }
    proof {
        assert(out@ =~= inner_right_idx(tups@));
    }
    out
}

/// The left gather positions of left-join tuples, executably.
fn collect_left_left(tups: &Vec<(usize, Option<usize>)>) -> (r: Vec<Option<usize>>)
    ensures
        r@ == left_left_idx(tups@),
{
    let mut out: Vec<Option<usize>> = Vec::new();
    let mut k: usize = 0;
    while k < tups.len()
        invariant
            k <= tups@.len(),
            out@.len() == k,
            forall|t: int| 0 <= t < k ==> #[trigger] out@[t] == Some(tups@[t].0),
        decreases tups@.len() - k,
    {
        out.push(Some(tups[k].0));
        k = k + 1;
    }
    proof {
        assert(out@ =~= left_left_idx(tups@));
    }
    out
}

/// The right gather positions of left-join tuples, executably.
fn collect_left_right(tups: &Vec<(usize, Option<usize>)>) -> (r: Vec<Option<usize>>)
    ensures
        r@ == left_right_idx(tups@),
{
    let mut out: Vec<Option<usize>> = Vec::new();
    let mut k: usize = 0;
    while k < tups.len()
        invariant
            k <= tups@.len(),
            out@.len() == k,
            forall|t: int| 0 <= t < k ==> #[trigger] out@[t] == tups@[t].1,
        decreases tups@.len() - k,
    {
        out.push(tups[k].1);
        k = k + 1;
    }
    proof {
        assert(out@ =~= left_right_idx(tups@));
    }
    out
}

/// The left gather positions of outer tuples, executably.
fn collect_outer_left(tups: &Vec<(Option<usize>, Option<usize>)>) -> (r: Vec<Option<usize>>)
    ensures
        r@ == outer_left_idx(tups@),
{
    let mut out: Vec<Option<usize>> = Vec::new();
    let mut k: usize = 0;
    while k < tups.len()
        invariant
            k <= tups@.len(),
            out@.len() == k,
            forall|t: int| 0 <= t < k ==> #[trigger] out@[t] == tups@[t].0,
        decreases tups@.len() - k,
    {
        out.push(tups[k].0);
        k = k + 1;
    }
    proof {
        assert(out@ =~= outer_left_idx(tups@));
    }
    out
}

/// The right gather positions of outer tuples, executably.
fn collect_outer_right(tups: &Vec<(Option<usize>, Option<usize>)>) -> (r: Vec<Option<usize>>)
    ensures
        r@ == outer_right_idx(tups@),
{
    let mut out: Vec<Option<usize>> = Vec::new();
    let mut k: usize = 0;
    while k < tups.len()
        invariant
            k <= tups@.len(),
            out@.len() == k,
            forall|t: int| 0 <= t < k ==> #[trigger] out@[t] == tups@[t].1,
        decreases tups@.len() - k,
    {
        out.push(tups[k].1);
        k = k + 1;
    }
    proof {
        assert(out@ =~= outer_right_idx(tups@));
    }
    out
}

} // verus!

verus! {

impl DataFrame {
    /// Gather this table's rows at each tuple's left index.
    pub fn create_left_df<B>(&self, join_tuples: &Vec<(usize, B)>) -> (r: Result<
        DataFrame,
        JoinError,
    >)
        requires
            self.wf(),
        ensures
            crate::frame::take_result_spec(
                r,
                *self,
                join_tuples@.map_values(|t: (usize, B)| Some(t.0)),
            ),
    {
        let mut idx: Vec<Option<usize>> = Vec::new();
        let mut k: usize = 0;
        while k < join_tuples.len()
            invariant
                k <= join_tuples@.len(),
                idx@.len() == k,
                forall|t: int| 0 <= t < k ==> #[trigger] idx@[t] == Some(join_tuples@[t].0),
            decreases join_tuples@.len() - k,
        {
            let p = &join_tuples[k];
            idx.push(Some(p.0));
            k = k + 1;
        }
        proof {
            assert(idx@ =~= join_tuples@.map_values(|t: (usize, B)| Some(t.0)));
        }
        self.take_opt(&idx)
    }

    /// Perform an inner join on two tables: one output row per join-equal
    /// `(left, right)` row pair, in probe order, with the right key column
    /// dropped and colliding right names suffixed by `_right`.
    #[verifier::rlimit(60)]
    pub fn inner_join(&self, other: &DataFrame, left_on: &str, right_on: &str) -> (r: Result<
        DataFrame,
        JoinError,
    >)
        requires
            self.wf(),
            other.wf(),
        ensures
            match r {
                Ok(df) => inner_join_ok(self@, other@, left_on@, right_on@) && df@
                    == inner_join_view(self@, other@, left_on@, right_on@) && df.wf(),
                Err(e) => match e {
                    JoinError::KeyNotFound => !join_inputs_ok(self@, other@, left_on@, right_on@),
                    JoinError::UnsupportedKeyType => join_inputs_ok(
                        self@,
                        other@,
                        left_on@,
                        right_on@,
                    ) && !keys_compatible(col_of(self@, left_on@), col_of(other@, right_on@)),
                    JoinError::MaterializationFailure => join_inputs_ok(
                        self@,
                        other@,
                        left_on@,
                        right_on@,
                    ) && keys_compatible(col_of(self@, left_on@), col_of(other@, right_on@))
                        && !inner_join_ok(self@, other@, left_on@, right_on@),
                    JoinError::WorkerFailure => join_inputs_ok(self@, other@, left_on@, right_on@)
                        && keys_compatible(col_of(self@, left_on@), col_of(other@, right_on@)),
                },
            },
            !join_inputs_ok(self@, other@, left_on@, right_on@) ==> r == Err::<
                DataFrame,
                JoinError,
            >(JoinError::KeyNotFound),
            join_inputs_ok(self@, other@, left_on@, right_on@) && !keys_compatible(
                col_of(self@, left_on@),
                col_of(other@, right_on@),
            ) ==> r == Err::<DataFrame, JoinError>(JoinError::UnsupportedKeyType),
    {
        let left_on_s = left_on.to_owned();
        let right_on_s = right_on.to_owned();
        let s_left = match self.column(&left_on_s) {
            Some(c) => c,
            None => {
                return Err(JoinError::KeyNotFound);
            },
        };
        let s_right = match other.column(&right_on_s) {
            Some(c) => c,
            None => {
                return Err(JoinError::KeyNotFound);
            },
        };
        let tuples = match s_left.hash_join_inner(s_right) {
            Ok(t) => t,
            Err(_) => {
                return Err(JoinError::UnsupportedKeyType);
            },
        };
        proof {
            let kl = col_of(self@, left_on@).cells;
            let kr = col_of(other@, right_on@).cells;
            assert(kl.len() == df_height(self@));
            assert(kr.len() == df_height(other@));
            if kl.len() > kr.len() {
                crate::tuples::lemma_inner_upto_bounds(kl, kr, false, kl.len() as int);
            } else {
                crate::tuples::lemma_inner_upto_bounds(kr, kl, true, kr.len() as int);
            }
            assert forall|k: int| 0 <= k < inner_left_idx(tuples@).len() implies ((
            #[trigger] inner_left_idx(tuples@)[k]) matches Some(i) ==> i < df_height(
                self@,
            )) by {
                assert(inner_left_idx(tuples@)[k] == Some(tuples@[k].0));
            }
            assert forall|k: int| 0 <= k < inner_right_idx(tuples@).len() implies ((
            #[trigger] inner_right_idx(tuples@)[k]) matches Some(i) ==> i < df_height(
                other@,
            )) by {
                assert(inner_right_idx(tuples@)[k] == Some(tuples@[k].1));
            }
            assert(gather_idx_ok(df_height(self@), inner_left_idx(tuples@)));
            assert(gather_idx_ok(df_height(other@), inner_right_idx(tuples@)));
        }
        let idx_l = collect_inner_left(&tuples);
        let idx_r = collect_inner_right(&tuples);
        match crate::frame::par_take_pair(self, other, &idx_l, &idx_r) {
            None => Err(JoinError::WorkerFailure),
            Some((lres, rres)) => match (lres, rres) {
                (Ok(df_left), Ok(df_right)) => self.finish_join(df_left, df_right, &right_on_s),
                _ => {
                    proof {
                        assert(false);
                    }
                    Err(JoinError::WorkerFailure)
                },
            },
        }
    }

    /// Perform a left join on two tables: every left row appears at least
    /// once, matched rows once per match and unmatched rows once with a null
    /// right side, in left-row order.
    #[verifier::rlimit(60)]
    pub fn left_join(&self, other: &DataFrame, left_on: &str, right_on: &str) -> (r: Result<
        DataFrame,
        JoinError,
    >)
        requires
            self.wf(),
            other.wf(),
        ensures
            match r {
                Ok(df) => left_join_ok(self@, other@, left_on@, right_on@) && df@
                    == left_join_view(self@, other@, left_on@, right_on@) && df.wf(),
                Err(e) => match e {
                    JoinError::KeyNotFound => !join_inputs_ok(self@, other@, left_on@, right_on@),
                    JoinError::UnsupportedKeyType => join_inputs_ok(
                        self@,
                        other@,
                        left_on@,
                        right_on@,
                    ) && !keys_compatible(col_of(self@, left_on@), col_of(other@, right_on@)),
                    JoinError::MaterializationFailure => join_inputs_ok(
                        self@,
                        other@,
                        left_on@,
                        right_on@,
                    ) && keys_compatible(col_of(self@, left_on@), col_of(other@, right_on@))
                        && !left_join_ok(self@, other@, left_on@, right_on@),
                    JoinError::WorkerFailure => join_inputs_ok(self@, other@, left_on@, right_on@)
                        && keys_compatible(col_of(self@, left_on@), col_of(other@, right_on@)),
                },
            },
            !join_inputs_ok(self@, other@, left_on@, right_on@) ==> r == Err::<
                DataFrame,
                JoinError,
            >(JoinError::KeyNotFound),
            join_inputs_ok(self@, other@, left_on@, right_on@) && !keys_compatible(
                col_of(self@, left_on@),
                col_of(other@, right_on@),
            ) ==> r == Err::<DataFrame, JoinError>(JoinError::UnsupportedKeyType),
    {
        let left_on_s = left_on.to_owned();
        let right_on_s = right_on.to_owned();
        let s_left = match self.column(&left_on_s) {
            Some(c) => c,
            None => {
                return Err(JoinError::KeyNotFound);
            },
        };
        let s_right = match other.column(&right_on_s) {
            Some(c) => c,
            None => {
                return Err(JoinError::KeyNotFound);
            },
        };
        let tuples = match s_left.hash_join_left(s_right) {
            Ok(t) => t,
            Err(_) => {
                return Err(JoinError::UnsupportedKeyType);
            },
        };
        proof {
            let kl = col_of(self@, left_on@).cells;
            let kr = col_of(other@, right_on@).cells;
            assert(kl.len() == df_height(self@));
            assert(kr.len() == df_height(other@));
            crate::tuples::lemma_left_upto_bounds(kl, kr, kl.len() as int);
            assert forall|k: int| 0 <= k < left_left_idx(tuples@).len() implies ((
            #[trigger] left_left_idx(tuples@)[k]) matches Some(i) ==> i < df_height(
                self@,
            )) by {
                assert(left_left_idx(tuples@)[k] == Some(tuples@[k].0));
            }
            assert forall|k: int| 0 <= k < left_right_idx(tuples@).len() implies ((
            #[trigger] left_right_idx(tuples@)[k]) matches Some(i) ==> i < df_height(
                other@,
            )) by {
                assert(left_right_idx(tuples@)[k] == tuples@[k].1);
            }
            assert(gather_idx_ok(df_height(self@), left_left_idx(tuples@)));
            assert(gather_idx_ok(df_height(other@), left_right_idx(tuples@)));
        }
        let idx_l = collect_left_left(&tuples);
        let idx_r = collect_left_right(&tuples);
        match crate::frame::par_take_pair(self, other, &idx_l, &idx_r) {
            None => Err(JoinError::WorkerFailure),
            Some((lres, rres)) => match (lres, rres) {
                (Ok(df_left), Ok(df_right)) => self.finish_join(df_left, df_right, &right_on_s),
                _ => {
                    proof {
                        assert(false);
                    }
                    Err(JoinError::WorkerFailure)
                },
            },
        }
    }
}

} // verus!

verus! {

/// Element-wise coalescing: the left cell when present, else the right.
pub open spec fn coalesce_cells(l: Seq<Option<ValView>>, r: Seq<Option<ValView>>) -> Seq<
    Option<ValView>,
> {
    Seq::new(
        l.len(),
        |i: int|
            if l[i] is Some {
                l[i]
            } else {
                r[i]
            },
    )
}

/// Whether any cell is null.
pub open spec fn has_null_cells(cells: Seq<Option<ValView>>) -> bool {
    exists|i: int| 0 <= i < cells.len() && cells[i] is None
}

/// The gathered left table with its key column coalesced against the
/// gathered right key column, when the gathered left key column has nulls;
/// untouched otherwise.
///
/// Text columns carry an explicit null marker and coalesce by the same
/// null rule as every other kind.  An alternative convention treats an
/// empty text cell as the missing sentinel; that rule is deliberately not
/// adopted here, so an empty string is an ordinary value that wins over
/// the right side.
pub open spec fn outer_coalesced_left(
    lg: Seq<ColV>,
    rg: Seq<ColV>,
    lon: Seq<char>,
    ron: Seq<char>,
) -> Seq<ColV> {
    let li = col_idx_of(lg, lon);
    let lc = col_of(lg, lon);
    let rc = col_of(rg, ron);
    if has_null_cells(lc.cells) {
        lg.update(
            li,
            ColV { name: lc.name, kind: lc.kind, cells: coalesce_cells(lc.cells, rc.cells) },
        )
    } else {
        lg
    }
}

/// Coalesce two equally long vectors of the same copyable cell type.
fn coalesce_copy<T: Copy>(l: &Vec<Option<T>>, r: &Vec<Option<T>>) -> (out: Vec<Option<T>>)
    requires
        l@.len() == r@.len(),
    ensures
        out@.len() == l@.len(),
        forall|k: int| 0 <= k < l@.len() ==> #[trigger] out@[k] == (if l@[k] is Some {
            l@[k]
        } else {
            r@[k]
        }),
{
    let mut out: Vec<Option<T>> = Vec::new();
    let mut k: usize = 0;
    while k < l.len()
        invariant
            l@.len() == r@.len(),
            k <= l@.len(),
            out@.len() == k,
            forall|t: int| 0 <= t < k ==> #[trigger] out@[t] == (if l@[t] is Some {
                l@[t]
            } else {
                r@[t]
            }),
        decreases l@.len() - k,
    {
        match &l[k] {
            Some(x) => out.push(Some(*x)),
            None => match &r[k] {
                Some(y) => out.push(Some(*y)),
                None => out.push(None),
            },
        }
        k = k + 1;
    }
    out
}

/// Coalesce two equally long text vectors, cloning the chosen strings.
fn coalesce_text(l: &Vec<Option<String>>, r: &Vec<Option<String>>) -> (out: Vec<
    Option<String>,
>)
    requires
        l@.len() == r@.len(),
    ensures
        out@.len() == l@.len(),
        forall|k: int| 0 <= k < l@.len() ==> #[trigger] out@[k] == (if l@[k] is Some {
            l@[k]
        } else {
            r@[k]
        }),
{
    let mut out: Vec<Option<String>> = Vec::new();
    let mut k: usize = 0;
    while k < l.len()
        invariant
            l@.len() == r@.len(),
            k <= l@.len(),
            out@.len() == k,
            forall|t: int| 0 <= t < k ==> #[trigger] out@[t] == (if l@[t] is Some {
                l@[t]
            } else {
                r@[t]
            }),
        decreases l@.len() - k,
    {
        match &l[k] {
            Some(x) => out.push(Some(x.clone())),
            None => match &r[k] {
                Some(y) => out.push(Some(y.clone())),
                None => out.push(None),
            },
        }
        k = k + 1;
    }
    out
}

/// Coalesce two same-kind, equally long columns cell by cell.
fn coalesce_data(l: &ColumnData, r: &ColumnData) -> (res: Result<ColumnData, JoinError>)
    requires
        l.kind() == r.kind(),
        l.cells().len() == r.cells().len(),
    ensures
        res is Ok,
        res matches Ok(d) ==> d.kind() == l.kind() && d.cells() == coalesce_cells(
            l.cells(),
            r.cells(),
        ),
{
    let res = match (l, r) {
        (ColumnData::UInt32(lv), ColumnData::UInt32(rv)) => ColumnData::UInt32(
            coalesce_copy(lv, rv),
        ),
        (ColumnData::Int32(lv), ColumnData::Int32(rv)) => ColumnData::Int32(
            coalesce_copy(lv, rv),
        ),
        (ColumnData::Int64(lv), ColumnData::Int64(rv)) => ColumnData::Int64(
            coalesce_copy(lv, rv),
        ),
        (ColumnData::Boolean(lv), ColumnData::Boolean(rv)) => ColumnData::Boolean(
            coalesce_copy(lv, rv),
        ),
        (ColumnData::Text(lv), ColumnData::Text(rv)) => ColumnData::Text(coalesce_text(lv, rv)),
        (ColumnData::F64Bits(lv), ColumnData::F64Bits(rv)) => ColumnData::F64Bits(
            coalesce_copy(lv, rv),
        ),
        _ => {
            proof {
                assert(false);
            }
            return Err(JoinError::MaterializationFailure);
        },
    };
    proof {
        assert(res.cells() =~= coalesce_cells(l.cells(), r.cells()));
    }
    Ok(res)
}

/// The outer-join tuple collection of two tables joined on the named key
/// columns.
pub open spec fn outer_join_tuples_spec(
    l: Seq<ColV>,
    r: Seq<ColV>,
    lon: Seq<char>,
    ron: Seq<char>,
) -> Seq<(Option<usize>, Option<usize>)> {
    outer_merged(col_of(l, lon).cells, col_of(r, ron).cells)
}

/// The gathered left side of an outer join, before coalescing.
pub open spec fn outer_gathered_left(
    l: Seq<ColV>,
    r: Seq<ColV>,
    lon: Seq<char>,
    ron: Seq<char>,
) -> Seq<ColV> {
    take_view(l, outer_left_idx(outer_join_tuples_spec(l, r, lon, ron)))
}

/// The gathered right side of an outer join.
pub open spec fn outer_gathered_right(
    l: Seq<ColV>,
    r: Seq<ColV>,
    lon: Seq<char>,
    ron: Seq<char>,
) -> Seq<ColV> {
    take_view(r, outer_right_idx(outer_join_tuples_spec(l, r, lon, ron)))
}

/// The assembled outer-join output table.
pub open spec fn outer_join_view(
    l: Seq<ColV>,
    r: Seq<ColV>,
    lon: Seq<char>,
    ron: Seq<char>,
) -> Seq<ColV> {
    finish_view(
        outer_coalesced_left(
            outer_gathered_left(l, r, lon, ron),
            outer_gathered_right(l, r, lon, ron),
            lon,
            ron,
        ),
        outer_gathered_right(l, r, lon, ron),
        ron,
    )
}

/// When an outer join succeeds.
pub open spec fn outer_join_ok(
    l: Seq<ColV>,
    r: Seq<ColV>,
    lon: Seq<char>,
    ron: Seq<char>,
) -> bool {
    &&& join_inputs_ok(l, r, lon, ron)
    &&& keys_compatible(col_of(l, lon), col_of(r, ron))
    &&& finish_ok(
        outer_coalesced_left(
            outer_gathered_left(l, r, lon, ron),
            outer_gathered_right(l, r, lon, ron),
            lon,
            ron,
        ),
        outer_gathered_right(l, r, lon, ron),
        ron,
    )
}

impl DataFrame {
    /// Perform a full outer join on two tables: every row of both tables is
    /// represented, matched pairs exactly once; the two key columns are
    /// coalesced into one taking the non-null side's value.  For text keys
    /// the same null rule applies: an empty string is a value, not a
    /// missing-value sentinel (see `outer_coalesced_left`).
    #[verifier::rlimit(60)]
    pub fn outer_join(&self, other: &DataFrame, left_on: &str, right_on: &str) -> (r: Result<
        DataFrame,
        JoinError,
    >)
        requires
            self.wf(),
            other.wf(),
        ensures
            match r {
                Ok(df) => outer_join_ok(self@, other@, left_on@, right_on@) && df@
                    == outer_join_view(self@, other@, left_on@, right_on@) && df.wf(),
                Err(e) => match e {
                    JoinError::KeyNotFound => !join_inputs_ok(self@, other@, left_on@, right_on@),
                    JoinError::UnsupportedKeyType => join_inputs_ok(
                        self@,
                        other@,
                        left_on@,
                        right_on@,
                    ) && !keys_compatible(col_of(self@, left_on@), col_of(other@, right_on@)),
                    JoinError::MaterializationFailure => join_inputs_ok(
                        self@,
                        other@,
                        left_on@,
                        right_on@,
                    ) && keys_compatible(col_of(self@, left_on@), col_of(other@, right_on@))
                        && !outer_join_ok(self@, other@, left_on@, right_on@),
                    JoinError::WorkerFailure => join_inputs_ok(self@, other@, left_on@, right_on@)
                        && keys_compatible(col_of(self@, left_on@), col_of(other@, right_on@)),
                },
            },
            !join_inputs_ok(self@, other@, left_on@, right_on@) ==> r == Err::<
                DataFrame,
                JoinError,
            >(JoinError::KeyNotFound),
            join_inputs_ok(self@, other@, left_on@, right_on@) && !keys_compatible(
                col_of(self@, left_on@),
                col_of(other@, right_on@),
            ) ==> r == Err::<DataFrame, JoinError>(JoinError::UnsupportedKeyType),
    {
        let left_on_s = left_on.to_owned();
        let right_on_s = right_on.to_owned();
        let s_left = match self.column(&left_on_s) {
            Some(c) => c,
            None => {
                return Err(JoinError::KeyNotFound);
            },
        };
        let s_right = match other.column(&right_on_s) {
            Some(c) => c,
            None => {
                return Err(JoinError::KeyNotFound);
            },
        };
        let tuples = match s_left.hash_join_outer(s_right) {
            Ok(t) => t,
            Err(e) => {
                return Err(e);
            },
        };
        proof {
            let kl = col_of(self@, left_on@).cells;
            let kr = col_of(other@, right_on@).cells;
            assert(kl.len() == df_height(self@));
            assert(kr.len() == df_height(other@));
            crate::tuples::lemma_outer_merged_bounds(kl, kr);
            assert forall|k: int| 0 <= k < outer_left_idx(tuples@).len() implies ((
            #[trigger] outer_left_idx(tuples@)[k]) matches Some(i) ==> i < df_height(
                self@,
            )) by {
                assert(outer_left_idx(tuples@)[k] == tuples@[k].0);
            }
            assert forall|k: int| 0 <= k < outer_right_idx(tuples@).len() implies ((
            #[trigger] outer_right_idx(tuples@)[k]) matches Some(i) ==> i < df_height(
                other@,
            )) by {
                assert(outer_right_idx(tuples@)[k] == tuples@[k].1);
            }
            assert(gather_idx_ok(df_height(self@), outer_left_idx(tuples@)));
            assert(gather_idx_ok(df_height(other@), outer_right_idx(tuples@)));
        }
        let idx_l = collect_outer_left(&tuples);
        let idx_r = collect_outer_right(&tuples);
        let (mut df_left, df_right) = match crate::frame::par_take_pair(
            self,
            other,
            &idx_l,
            &idx_r,
        ) {
            None => {
                return Err(JoinError::WorkerFailure);
            },
            Some((lres, rres)) => match (lres, rres) {
                (Ok(df_left), Ok(df_right)) => (df_left, df_right),
                _ => {
                    proof {
                        assert(false);
                    }
                    return Err(JoinError::WorkerFailure);
                },
            },
        };
        let ghost lg = df_left@;
        let ghost rg = df_right@;
        proof {
            let w = col_idx_of(self@, left_on@);
            assert(lg[w].name == left_on@);
            assert(df_has_col(lg, left_on@));
            let wr = col_idx_of(other@, right_on@);
            assert(rg[wr].name == right_on@);
            assert(df_has_col(rg, right_on@));
        }
        let li = match df_left.column_index(&left_on_s) {
            Some(i) => i,
            None => {
                proof {
                    assert(false);
                }
                return Err(JoinError::MaterializationFailure);
            },
        };
        if df_left.columns[li].data.has_null() {
            let new_data = {
                let rc = match df_right.column(&right_on_s) {
                    Some(c) => c,
                    None => {
                        proof {
                            assert(false);
                        }
                        return Err(JoinError::MaterializationFailure);
                    },
                };
                proof {
                    assert(lg[li as int].kind == col_of(self@, left_on@).kind);
                    assert(rc@.kind == col_of(other@, right_on@).kind);
                    assert(lg[li as int].cells.len() == outer_left_idx(tuples@).len());
                    assert(rc@.cells.len() == outer_right_idx(tuples@).len());
                }
                match coalesce_data(&df_left.columns[li].data, &rc.data) {
                    Ok(d) => d,
                    Err(_) => {
                        proof {
                            assert(false);
                        }
                        return Err(JoinError::MaterializationFailure);
                    },
                }
            };
            let name = df_left.columns[li].name.clone();
            df_left.columns[li] = Column { name, data: new_data };
            proof {
                assert(col_of(lg, left_on@) == lg[li as int]);
                assert(df_left@ =~~= outer_coalesced_left(lg, rg, left_on@, right_on@));
            }
        } else {
            proof {
                assert(col_of(lg, left_on@) == lg[li as int]);
                assert(!has_null_cells(col_of(lg, left_on@).cells));
                assert(df_left@ == outer_coalesced_left(lg, rg, left_on@, right_on@));
            }
        }
        self.finish_join(df_left, df_right, &right_on_s)
    }
}

} // verus!
