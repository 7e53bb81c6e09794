//! Columnar tables: typed columns with explicit null representation, and the
//! frame-level operations the join engine needs (lookup, row-gathering,
//! renaming and horizontal assembly).
//!
//! Floating-point cells are carried as raw IEEE-754 bit patterns (`F64Bits`):
//! they move through materialization untouched and are not joinable keys.

use vstd::prelude::*;

use crate::errors::JoinError;
use crate::value::ElemKind;
use crate::value::ValView;

verus! {

/// The mathematical content of one column: its name, element kind, and cell
/// sequence (`None` is a null cell).
#[verifier::ext_equal]
pub struct ColV {
    pub name: Seq<char>,
    pub kind: ElemKind,
    pub cells: Seq<Option<ValView>>,
}

/// The typed cell storage of one column.
#[derive(Debug)]
pub enum ColumnData {
    UInt32(Vec<Option<u32>>),
    Int32(Vec<Option<i32>>),
    Int64(Vec<Option<i64>>),
    Boolean(Vec<Option<bool>>),
    Text(Vec<Option<String>>),
    F64Bits(Vec<Option<u64>>),
}

pub open spec fn conv_u32(c: Option<u32>) -> Option<ValView> {
    match c {
        Some(x) => Some(ValView::U32(x)),
        None => None,
    }
}

pub open spec fn conv_i32(c: Option<i32>) -> Option<ValView> {
    match c {
        Some(x) => Some(ValView::I32(x)),
        None => None,
    }
}

pub open spec fn conv_i64(c: Option<i64>) -> Option<ValView> {
    match c {
        Some(x) => Some(ValView::I64(x)),
        None => None,
    }
}

pub open spec fn conv_bool(c: Option<bool>) -> Option<ValView> {
    match c {
        Some(x) => Some(ValView::Bool(x)),
        None => None,
    }
}

pub open spec fn conv_text(c: Option<String>) -> Option<ValView> {
    match c {
        Some(s) => Some(ValView::Text(s@)),
        None => None,
    }
}

pub open spec fn conv_f64bits(c: Option<u64>) -> Option<ValView> {
    match c {
        Some(x) => Some(ValView::F64Bits(x)),
        None => None,
    }
}

impl ColumnData {
    /// The declared element kind of this storage.
    pub open spec fn kind(self) -> ElemKind {
        match self {
            ColumnData::UInt32(_) => ElemKind::UInt32,
            ColumnData::Int32(_) => ElemKind::Int32,
            ColumnData::Int64(_) => ElemKind::Int64,
            ColumnData::Boolean(_) => ElemKind::Boolean,
            ColumnData::Text(_) => ElemKind::Text,
            ColumnData::F64Bits(_) => ElemKind::F64Bits,
        }
    }

    /// The cell sequence this storage holds.
    pub open spec fn cells(self) -> Seq<Option<ValView>> {
        match self {
            ColumnData::UInt32(v) => v@.map_values(|c: Option<u32>| conv_u32(c)),
            ColumnData::Int32(v) => v@.map_values(|c: Option<i32>| conv_i32(c)),
            ColumnData::Int64(v) => v@.map_values(|c: Option<i64>| conv_i64(c)),
            ColumnData::Boolean(v) => v@.map_values(|c: Option<bool>| conv_bool(c)),
            ColumnData::Text(v) => v@.map_values(|c: Option<String>| conv_text(c)),
            ColumnData::F64Bits(v) => v@.map_values(|c: Option<u64>| conv_f64bits(c)),
        }
    }

    /// The number of cells.
    pub fn len(&self) -> (r: usize)
        ensures
            r == self.cells().len(),
    {
        match self {
            ColumnData::UInt32(v) => v.len(),
            ColumnData::Int32(v) => v.len(),
            ColumnData::Int64(v) => v.len(),
            ColumnData::Boolean(v) => v.len(),
            ColumnData::Text(v) => v.len(),
            ColumnData::F64Bits(v) => v.len(),
        }
    }

    /// The declared element kind, executably.
    pub fn kind_of(&self) -> (r: ElemKind)
        ensures
            r == self.kind(),
    {
        match self {
            ColumnData::UInt32(_) => ElemKind::UInt32,
            ColumnData::Int32(_) => ElemKind::Int32,
            ColumnData::Int64(_) => ElemKind::Int64,
            ColumnData::Boolean(_) => ElemKind::Boolean,
            ColumnData::Text(_) => ElemKind::Text,
            ColumnData::F64Bits(_) => ElemKind::F64Bits,
        }
    }

    /// Whether any cell is null.
    pub fn has_null(&self) -> (r: bool)
        ensures
            r == exists|i: int| 0 <= i < self.cells().len() && self.cells()[i] is None,
    {
        match self {
            ColumnData::UInt32(v) => {
                let r = has_null_vec(v);
                proof {
                    if r {
                        let w = choose|t: int| 0 <= t < v@.len() && v@[t] is None;
                        assert(self.cells()[w] is None);
                    } else {
                        assert forall|t: int| 0 <= t < self.cells().len() implies (
                        #[trigger] self.cells()[t]) is Some by { assert(v@[t] is Some) }
                    }
                }
                r
            },
            ColumnData::Int32(v) => {
                let r = has_null_vec(v);
                proof {
                    if r {
                        let w = choose|t: int| 0 <= t < v@.len() && v@[t] is None;
                        assert(self.cells()[w] is None);
                    } else {
                        assert forall|t: int| 0 <= t < self.cells().len() implies (
                        #[trigger] self.cells()[t]) is Some by { assert(v@[t] is Some) }
                    }
                }
                r
            },
            ColumnData::Int64(v) => {
                let r = has_null_vec(v);
                proof {
                    if r {
                        let w = choose|t: int| 0 <= t < v@.len() && v@[t] is None;
                        assert(self.cells()[w] is None);
                    } else {
                        assert forall|t: int| 0 <= t < self.cells().len() implies (
                        #[trigger] self.cells()[t]) is Some by { assert(v@[t] is Some) }
                    }
                }
                r
            },
            ColumnData::Boolean(v) => {
                let r = has_null_vec(v);
                proof {
                    if r {
                        let w = choose|t: int| 0 <= t < v@.len() && v@[t] is None;
                        assert(self.cells()[w] is None);
                    } else {
                        assert forall|t: int| 0 <= t < self.cells().len() implies (
                        #[trigger] self.cells()[t]) is Some by { assert(v@[t] is Some) }
                    }
                }
                r
            },
            ColumnData::Text(v) => {
                let r = has_null_vec(v);
                proof {
                    if r {
                        let w = choose|t: int| 0 <= t < v@.len() && v@[t] is None;
                        assert(self.cells()[w] is None);
                    } else {
                        assert forall|t: int| 0 <= t < self.cells().len() implies (
                        #[trigger] self.cells()[t]) is Some by { assert(v@[t] is Some) }
                    }
                }
                r
            },
            ColumnData::F64Bits(v) => {
                let r = has_null_vec(v);
                proof {
                    if r {
                        let w = choose|t: int| 0 <= t < v@.len() && v@[t] is None;
                        assert(self.cells()[w] is None);
                    } else {
                        assert forall|t: int| 0 <= t < self.cells().len() implies (
                        #[trigger] self.cells()[t]) is Some by { assert(v@[t] is Some) }
                    }
                }
                r
            },
        }
    }
}

/// Whether any entry of `v` is `None`.
fn has_null_vec<T>(v: &Vec<Option<T>>) -> (r: bool)
    ensures
        r == exists|i: int| 0 <= i < v@.len() && v@[i] is None,
{
    let mut i: usize = 0;
    while i < v.len()
        invariant
            i <= v@.len(),
            forall|t: int| 0 <= t < i ==> v@[t] is Some,
        decreases v@.len() - i,
    {
        if v[i].is_none() {
            return true;
        }
        i = i + 1;
    }
    false
}

/// A named, typed column.
#[derive(Debug)]
pub struct Column {
    pub name: String,
    pub data: ColumnData,
}

impl View for Column {
    type V = ColV;

    open spec fn view(&self) -> ColV {
        ColV { name: self.name@, kind: self.data.kind(), cells: self.data.cells() }
    }
}

/// The views of a column collection.
pub open spec fn cols_view(cols: Seq<Column>) -> Seq<ColV> {
    cols.map_values(|c: Column| c@)
}

/// A table: an ordered collection of equally long, uniquely named columns.
#[derive(Debug)]
pub struct DataFrame {
    pub columns: Vec<Column>,
}

impl View for DataFrame {
    type V = Seq<ColV>;

    open spec fn view(&self) -> Seq<ColV> {
        cols_view(self.columns@)
    }
}

/// The common row count of a table.
pub open spec fn df_height(df: Seq<ColV>) -> nat {
    if df.len() == 0 {
        0
    } else {
        df[0].cells.len()
    }
}

/// Whether the table has a column of the given name.
pub open spec fn df_has_col(df: Seq<ColV>, name: Seq<char>) -> bool {
    exists|i: int| 0 <= i < df.len() && df[i].name == name
}

/// The position of the column of the given name (unique under `df_wf`).
pub open spec fn col_idx_of(df: Seq<ColV>, name: Seq<char>) -> int {
    choose|i: int| 0 <= i < df.len() && df[i].name == name
}

/// The column of the given name.
pub open spec fn col_of(df: Seq<ColV>, name: Seq<char>) -> ColV {
    df[col_idx_of(df, name)]
}

/// All column names are pairwise distinct.
pub open spec fn df_names_unique(df: Seq<ColV>) -> bool {
    forall|i: int, j: int| 0 <= i < j < df.len() ==> df[i].name != df[j].name
}

/// A well-formed table: every column has the common height, and no two
/// columns share a name.
pub open spec fn df_wf(df: Seq<ColV>) -> bool {
    &&& forall|i: int| 0 <= i < df.len() ==> #[trigger] df[i].cells.len() == df_height(df)
    &&& df_names_unique(df)
    &&& df_height(df) <= usize::MAX
}

impl DataFrame {
    /// Table validity: see `df_wf`.
    pub open spec fn wf(self) -> bool {
        df_wf(self@)
    }

    /// The number of rows.
    pub fn height(&self) -> (r: usize)
        requires
            self.wf(),
        ensures
            r == df_height(self@),
    {
        if self.columns.len() == 0 {
            0
        } else {
            self.columns[0].data.len()
        }
    }

    /// The number of columns.
    pub fn width(&self) -> (r: usize)
        ensures
            r == self@.len(),
    {
        self.columns.len()
    }

    /// Build a table from columns, checking that all columns have one common
    /// height and that no two share a name.
    pub fn new(columns: Vec<Column>) -> (r: Result<DataFrame, JoinError>)
        ensures
            match r {
                Ok(df) => df@ == cols_view(columns@) && df.wf(),
                Err(e) => e == JoinError::MaterializationFailure && !df_wf(cols_view(columns@)),
            },
    {
        let ghost view = cols_view(columns@);
        if columns.len() > 0 {
            let h = columns[0].data.len();
            proof {
                assert(view[0].cells == columns@[0].data.cells());
                assert(h == df_height(view));
            }
            let mut i: usize = 0;
            while i < columns.len()
                invariant
                    i <= columns@.len(),
                    view == cols_view(columns@),
                    h == df_height(view),
                    forall|t: int|
                        0 <= t < i ==> #[trigger] view[t].cells.len() == df_height(view),
                decreases columns@.len() - i,
            {
                if columns[i].data.len() != h {
                    proof {
                        assert(view[i as int].cells.len() != df_height(view));
                        assert(!df_wf(view));
                    }
                    return Err(JoinError::MaterializationFailure);
                }
                proof {
                    assert(view[i as int].cells == columns@[i as int].data.cells());
                }
                i = i + 1;
            }
        }
        let mut p: usize = 0;
        while p < columns.len()
            invariant
                p <= columns@.len(),
                view == cols_view(columns@),
                forall|t: int| 0 <= t < columns@.len() ==> #[trigger] view[t].cells.len()
                    == df_height(view),
                forall|t1: int, t2: int|
                    0 <= t1 < t2 < columns@.len() && t1 < p ==> view[t1].name != view[t2].name,
            decreases columns@.len() - p,
        {
            let mut q: usize = p + 1;
            while q < columns.len()
                invariant
                    p < q,
                    q <= columns@.len() || q == p + 1,
                    view == cols_view(columns@),
                    forall|t: int| p < t < q ==> view[p as int].name != view[t].name,
                decreases columns@.len() - q,
            {
                if columns[p].name.eq(&columns[q].name) {
                    proof {
                        assert(view[p as int].name == view[q as int].name);
                        assert(!df_names_unique(view));
                    }
                    return Err(JoinError::MaterializationFailure);
                }
                proof {
                    assert(view[q as int].name == columns@[q as int].name@);
                }
                q = q + 1;
            }
            p = p + 1;
        }
        proof {
            if columns@.len() > 0 {
                assert(view[0].cells.len() == df_height(view));
            }
        }
        Ok(DataFrame { columns })
    }

    /// The column of the given name, if present.
    pub fn column(&self, name: &String) -> (r: Option<&Column>)
        requires
            self.wf(),
        ensures
            match r {
                Some(c) => df_has_col(self@, name@) && c@ == col_of(self@, name@),
                None => !df_has_col(self@, name@),
            },
    {
        let mut i: usize = 0;
        while i < self.columns.len()
            invariant
                i <= self@.len(),
                self.wf(),
                forall|t: int| 0 <= t < i ==> self@[t].name != name@,
            decreases self@.len() - i,
        {
            if self.columns[i].name.eq(name) {
                proof {
                    assert(self@[i as int].name == name@);
                    let w = col_idx_of(self@, name@);
                    assert(0 <= w < self@.len() && self@[w].name == name@);
                    assert(w == i as int);
                }
                return Some(&self.columns[i]);
            }
            i = i + 1;
        }
        proof {
            if df_has_col(self@, name@) {
                let w = choose|t: int| 0 <= t < self@.len() && self@[t].name == name@;
                assert(false);
            }
        }
        None
    }

    /// The position of the column of the given name, if present.
    pub(crate) fn column_index(&self, name: &String) -> (r: Option<usize>)
        requires
            self.wf(),
        ensures
            match r {
                Some(i) => df_has_col(self@, name@) && i == col_idx_of(self@, name@) && i
                    < self@.len(),
                None => !df_has_col(self@, name@),
            },
    {
        let mut i: usize = 0;
        while i < self.columns.len()
            invariant
                i <= self@.len(),
                self.wf(),
                forall|t: int| 0 <= t < i ==> self@[t].name != name@,
            decreases self@.len() - i,
        {
            if self.columns[i].name.eq(name) {
                proof {
                    assert(self@[i as int].name == name@);
                    let w = col_idx_of(self@, name@);
                    assert(0 <= w < self@.len() && self@[w].name == name@);
                    assert(w == i as int);
                }
                return Some(i);
            }
            i = i + 1;
        }
        proof {
            if df_has_col(self@, name@) {
                let w = choose|t: int| 0 <= t < self@.len() && self@[t].name == name@;
                assert(false);
            }
        }
        None
    }
}

} // verus!

verus! {

/// Whether every present index points inside a table of the given height.
pub open spec fn gather_idx_ok(height: nat, idx: Seq<Option<usize>>) -> bool {
    forall|k: int| 0 <= k < idx.len() ==> ((#[trigger] idx[k]) matches Some(i) ==> i < height)
}

/// The cells selected from `cells` at the given positions; an absent
/// position yields a null cell.
pub open spec fn gather_cells(cells: Seq<Option<ValView>>, idx: Seq<Option<usize>>) -> Seq<
    Option<ValView>,
> {
    idx.map_values(
        |oi: Option<usize>|
            match oi {
                Some(i) => cells[i as int],
                None => None,
            },
    )
}

/// The table obtained by gathering every column at the given positions.
pub open spec fn take_view(df: Seq<ColV>, idx: Seq<Option<usize>>) -> Seq<ColV> {
    df.map_values(
        |c: ColV| ColV { name: c.name, kind: c.kind, cells: gather_cells(c.cells, idx) },
    )
}

/// What a row-gathering call returns: the gathered table when every present
/// index is in bounds, a materialization failure otherwise.
pub open spec fn take_result_spec(
    r: Result<DataFrame, JoinError>,
    df: DataFrame,
    idx: Seq<Option<usize>>,
) -> bool {
    match r {
        Ok(out) => gather_idx_ok(df_height(df@), idx) && out@ == take_view(df@, idx)
            && out.wf(),
        Err(e) => e == JoinError::MaterializationFailure && !gather_idx_ok(df_height(df@), idx),
    }
}

/// Select the entries of `v` at the given positions; `None` selects a null.
fn gather_copy<T: Copy>(v: &Vec<Option<T>>, idx: &Vec<Option<usize>>) -> (r: Vec<Option<T>>)
    requires
        forall|k: int|
            0 <= k < idx@.len() ==> ((#[trigger] idx@[k]) matches Some(i) ==> i < v@.len()),
    ensures
        r@.len() == idx@.len(),
        forall|k: int| 0 <= k < idx@.len() ==> #[trigger] r@[k] == (match idx@[k] {
            Some(i) => v@[i as int],
            None => None,
        }),
{
    let mut out: Vec<Option<T>> = Vec::new();
    let mut k: usize = 0;
    while k < idx.len()
        invariant
            k <= idx@.len(),
            out@.len() == k,
            forall|t: int|
                0 <= t < idx@.len() ==> ((#[trigger] idx@[t]) matches Some(i) ==> i < v@.len()),
            forall|t: int| 0 <= t < k ==> #[trigger] out@[t] == (match idx@[t] {
                Some(i) => v@[i as int],
                None => None,
            }),
        decreases idx@.len() - k,
    {
        match idx[k] {
            Some(i) => out.push(v[i]),
            None => out.push(None),
        }
        k = k + 1;
    }
    out
}

/// Select the text entries of `v` at the given positions, cloning each
/// selected string.
fn gather_text(v: &Vec<Option<String>>, idx: &Vec<Option<usize>>) -> (r: Vec<Option<String>>)
    requires
        forall|k: int|
            0 <= k < idx@.len() ==> ((#[trigger] idx@[k]) matches Some(i) ==> i < v@.len()),
    ensures
        r@.len() == idx@.len(),
        forall|k: int| 0 <= k < idx@.len() ==> #[trigger] r@[k] == (match idx@[k] {
            Some(i) => v@[i as int],
            None => None::<String>,
        }),
{
    let mut out: Vec<Option<String>> = Vec::new();
    let mut k: usize = 0;
    while k < idx.len()
        invariant
            k <= idx@.len(),
            out@.len() == k,
            forall|t: int|
                0 <= t < idx@.len() ==> ((#[trigger] idx@[t]) matches Some(i) ==> i < v@.len()),
            forall|t: int| 0 <= t < k ==> #[trigger] out@[t] == (match idx@[t] {
                Some(i) => v@[i as int],
                None => None::<String>,
            }),
        decreases idx@.len() - k,
    {
        match idx[k] {
            Some(i) => {
                match &v[i] {
                    Some(s) => out.push(Some(s.clone())),
                    None => out.push(None),
                }
            },
            None => out.push(None),
        }
        k = k + 1;
    }
    out
}

impl ColumnData {
    /// Gather this storage at the given positions.
    fn gather(&self, idx: &Vec<Option<usize>>) -> (r: ColumnData)
        requires
            gather_idx_ok(self.cells().len(), idx@),
        ensures
            r.kind() == self.kind(),
            r.cells() == gather_cells(self.cells(), idx@),
    {
        let r = match self {
            ColumnData::UInt32(v) => ColumnData::UInt32(gather_copy(v, idx)),
            ColumnData::Int32(v) => ColumnData::Int32(gather_copy(v, idx)),
            ColumnData::Int64(v) => ColumnData::Int64(gather_copy(v, idx)),
            ColumnData::Boolean(v) => ColumnData::Boolean(gather_copy(v, idx)),
            ColumnData::Text(v) => ColumnData::Text(gather_text(v, idx)),
            ColumnData::F64Bits(v) => ColumnData::F64Bits(gather_copy(v, idx)),
        };
        proof {
            assert(r.cells() =~= gather_cells(self.cells(), idx@));
        }
        r
    }
}

impl DataFrame {
    /// Gather ("take") rows at the given positions into a fresh table: an
    /// absent position produces a null row.  Fails, never panics, when a
    /// present position is out of bounds.
    pub fn take_opt(&self, idx: &Vec<Option<usize>>) -> (r: Result<DataFrame, JoinError>)
        requires
            self.wf(),
        ensures
            take_result_spec(r, *self, idx@),
    {
        let height = if self.columns.len() == 0 {
            0
        } else {
            self.columns[0].data.len()
        };
        proof {
            if self.columns@.len() > 0 {
                assert(self@[0].cells == self.columns@[0].data.cells());
            }
        }
        let mut k: usize = 0;
        while k < idx.len()
            invariant
                k <= idx@.len(),
                height == df_height(self@),
                forall|t: int|
                    0 <= t < k ==> ((#[trigger] idx@[t]) matches Some(i) ==> i < height),
            decreases idx@.len() - k,
        {
            match idx[k] {
                Some(i) => {
                    if i >= height {
                        return Err(JoinError::MaterializationFailure);
                    }
                },
                None => {},
            }
            k = k + 1;
        }
        let mut out: Vec<Column> = Vec::new();
        let mut c: usize = 0;
        while c < self.columns.len()
            invariant
                self.wf(),
                c <= self.columns@.len(),
                height == df_height(self@),
                gather_idx_ok(df_height(self@), idx@),
                cols_view(out@) =~~= take_view(self@, idx@).take(c as int),
            decreases self.columns@.len() - c,
        {
            let col = &self.columns[c];
            proof {
                assert(self@[c as int] == col@);
                assert(col@.cells.len() == df_height(self@));
            }
            let gathered = Column { name: col.name.clone(), data: col.data.gather(idx) };
            let ghost prev = out@;
            out.push(gathered);
            proof {
                assert(gathered@.name == col@.name);
                assert(gathered@.kind == col@.kind);
                assert(gathered@.cells == gather_cells(col@.cells, idx@));
                assert(take_view(self@, idx@)[c as int] == ColV {
                    name: self@[c as int].name,
                    kind: self@[c as int].kind,
                    cells: gather_cells(self@[c as int].cells, idx@),
                });
                assert(gathered@ =~~= take_view(self@, idx@)[c as int]);
                assert(cols_view(prev).len() == prev.len());
                assert(c as int <= take_view(self@, idx@).len());
                assert(take_view(self@, idx@).take(c as int).len() == c as int);
                assert(prev.len() == c as int);
                assert(out@ == prev.push(gathered));
                assert forall|t: int| 0 <= t < out@.len() implies cols_view(out@)[t]
                    == take_view(self@, idx@).take(c as int + 1)[t] by {
                    if t < c as int {
                        assert(cols_view(prev)[t] == take_view(self@, idx@).take(c as int)[t]);
                        assert(out@[t] == prev[t]);
                    } else {
                        assert(out@[t] == gathered);
                    }
                }
                assert(cols_view(out@) =~~= take_view(self@, idx@).take(c as int + 1));
            }
            c = c + 1;
        }
        let result = DataFrame { columns: out };
        proof {
            assert(result@ =~~= take_view(self@, idx@));
            assert forall|i: int| 0 <= i < result@.len() implies #[trigger] result@[i]
                .cells.len() == df_height(result@) by {
                assert(result@[i].cells.len() == idx@.len());
                if result@.len() > 0 {
                    assert(result@[0].cells.len() == idx@.len());
                }
            }
            assert forall|i: int, j: int| 0 <= i < j < result@.len() implies result@[i].name
                != result@[j].name by {
                assert(self@[i].name != self@[j].name);
            }
        }
        Ok(result)
    }
}

/// Relies on `crossbeam::thread::scope` and `ScopedJoinHandle::join`: the
/// left-side and right-side row gathers run as two worker tasks whose
/// closures call only this library's verified `take_opt`; `join` hands back
/// each closure's return value, and the result is `None` when the scope or a
/// worker failed instead of a propagated panic.
#[verifier::external_body]
pub(crate) fn par_take_pair(
    left: &DataFrame,
    right: &DataFrame,
    idx_l: &Vec<Option<usize>>,
    idx_r: &Vec<Option<usize>>,
) -> (r: Option<(Result<DataFrame, JoinError>, Result<DataFrame, JoinError>)>)
    requires
        left.wf(),
        right.wf(),
    ensures
        r matches Some(p) ==> take_result_spec(p.0, *left, idx_l@) && take_result_spec(
            p.1,
            *right,
            idx_r@,
        ),
{
    let res = crossbeam::thread::scope(|s| {
        let handle_l = s.spawn(|_| left.take_opt(idx_l));
        let handle_r = s.spawn(|_| right.take_opt(idx_r));
        match (handle_l.join(), handle_r.join()) {
            (Ok(l), Ok(rr)) => Some((l, rr)),
            _ => None,
        }
    });
    match res {
        Ok(v) => v,
        Err(_) => None,
    }
}

} // verus!

verus! {

/// A right-side column name after collision renaming.
pub open spec fn suffix_right(name: Seq<char>) -> Seq<char> {
    name + "_right"@
}

/// The position of the first column of the given name.
pub open spec fn first_col_idx(df: Seq<ColV>, name: Seq<char>) -> int {
    choose|i: int|
        0 <= i < df.len() && df[i].name == name && (forall|t: int|
            0 <= t < i ==> df[t].name != name)
}

/// The table with its first column of the given name removed.
pub open spec fn drop_first_col(df: Seq<ColV>, name: Seq<char>) -> Seq<ColV> {
    df.remove(first_col_idx(df, name))
}

/// The right-side columns with every name also present on the left suffixed
/// by `_right`.
pub open spec fn rename_clashes(left: Seq<ColV>, right: Seq<ColV>) -> Seq<ColV> {
    right.map_values(
        |c: ColV|
            if df_has_col(left, c.name) {
                ColV { name: suffix_right(c.name), kind: c.kind, cells: c.cells }
            } else {
                c
            },
    )
}

/// The assembled join output: the left table, then the right table without
/// its key column, with colliding right names suffixed.
pub open spec fn finish_view(left: Seq<ColV>, right: Seq<ColV>, right_on: Seq<char>) -> Seq<
    ColV,
> {
    left + rename_clashes(left, drop_first_col(right, right_on))
}

/// When assembly succeeds: the right key column exists, and the assembled
/// table is well formed (no duplicate-after-suffix collision, equal
/// heights).
pub open spec fn finish_ok(left: Seq<ColV>, right: Seq<ColV>, right_on: Seq<char>) -> bool {
    df_has_col(right, right_on) && df_wf(finish_view(left, right, right_on))
}

/// Whether the table has a column of the given name (no validity needed).
pub fn frame_has_col(df: &DataFrame, name: &String) -> (r: bool)
    ensures
        r == df_has_col(df@, name@),
{
    let mut i: usize = 0;
    while i < df.columns.len()
        invariant
            i <= df@.len(),
            forall|t: int| 0 <= t < i ==> df@[t].name != name@,
        decreases df@.len() - i,
    {
        if df.columns[i].name.eq(name) {
            proof {
                assert(df@[i as int].name == name@);
            }
            return true;
        }
        proof {
            assert(df@[i as int].name == df.columns@[i as int].name@);
        }
        i = i + 1;
    }
    proof {
        if df_has_col(df@, name@) {
            let w = choose|t: int| 0 <= t < df@.len() && df@[t].name == name@;
            assert(false);
        }
    }
    false
}

impl DataFrame {
    /// Finish a join: drop the right table's key column, rename right
    /// columns whose name collides with a left column to `<name>_right`, and
    /// append the right columns onto the left table.  Any step that cannot
    /// complete surfaces as an error, never a silent overwrite.
    pub fn finish_join(
        &self,
        df_left: DataFrame,
        df_right: DataFrame,
        right_on: &String,
    ) -> (r: Result<DataFrame, JoinError>)
        ensures
            match r {
                Ok(df) => finish_ok(df_left@, df_right@, right_on@) && df@ == finish_view(
                    df_left@,
                    df_right@,
                    right_on@,
                ) && df.wf(),
                Err(e) => e == JoinError::MaterializationFailure && !finish_ok(
                    df_left@,
                    df_right@,
                    right_on@,
                ),
            },
    {
        let ghost lv = df_left@;
        let ghost rv = df_right@;
        let mut right_cols = df_right.columns;
        // Locate and remove the right key column.
        let mut i: usize = 0;
        while i < right_cols.len() && !right_cols[i].name.eq(right_on)
            invariant
                i <= right_cols@.len(),
                rv == cols_view(right_cols@),
                forall|t: int| 0 <= t < i ==> rv[t].name != right_on@,
            decreases right_cols@.len() - i,
        {
            proof {
                assert(rv[i as int].name == right_cols@[i as int].name@);
            }
            i = i + 1;
        }
        if i >= right_cols.len() {
            proof {
                if df_has_col(rv, right_on@) {
                    let w = choose|t: int| 0 <= t < rv.len() && rv[t].name == right_on@;
                    assert(false);
                }
            }
            return Err(JoinError::MaterializationFailure);
        }
        let fi = i;
        proof {
            assert(rv[fi as int].name == right_cols@[fi as int].name@);
            assert(rv[fi as int].name == right_on@);
        }
        let _removed = right_cols.remove(fi);
        let ghost dv = drop_first_col(rv, right_on@);
        proof {
            assert(df_has_col(rv, right_on@));
            let w = first_col_idx(rv, right_on@);
            assert(0 <= w < rv.len() && rv[w].name == right_on@ && (forall|t: int|
                0 <= t < w ==> rv[t].name != right_on@));
            if w < fi as int {
                assert(rv[w].name == right_on@);
                assert(false);
            }
            if w > fi as int {
                assert(rv[fi as int].name != right_on@);
                assert(false);
            }
            assert(cols_view(right_cols@) =~~= dv);
            assert(right_cols.len() == right_cols@.len());
            assert(dv.len() <= usize::MAX);
        }
        // Rename right columns clashing with a left name.
        let mut renamed: Vec<Column> = Vec::new();
        let ghost target = rename_clashes(lv, dv);
        let mut k: usize = 0;
        while right_cols.len() > 0
            invariant
                lv == df_left@,
                target == rename_clashes(lv, dv),
                k + right_cols@.len() == dv.len(),
                dv.len() <= usize::MAX,
                cols_view(right_cols@) =~~= dv.skip(k as int),
                cols_view(renamed@) =~~= target.take(k as int),
            decreases right_cols@.len(),
        {
            let ghost old_cols = right_cols@;
            let col = right_cols.remove(0);
            proof {
                assert(cols_view(old_cols).len() == old_cols.len());
                assert(dv.skip(k as int).len() == dv.len() - k);
                assert(target.len() == dv.len());
                assert(cols_view(old_cols)[0] == col@);
                assert(col@ == dv.skip(k as int)[0]);
                assert(col@ == dv[k as int]);
                assert forall|t: int| 0 <= t < right_cols@.len() implies cols_view(
                    right_cols@,
                )[t] == dv.skip(k as int + 1)[t] by {
                    assert(right_cols@[t] == old_cols[t + 1]);
                    assert(cols_view(old_cols)[t + 1] == dv.skip(k as int)[t + 1]);
                }
                assert(cols_view(right_cols@) =~~= dv.skip(k as int + 1));
            }
            let Column { name, data } = col;
            let ghost prev = renamed@;
            if frame_has_col(&df_left, &name) {
                let new_name = name.concat("_right");
                renamed.push(Column { name: new_name, data });
            } else {
                renamed.push(Column { name, data });
            }
            proof {
                assert(target.take(k as int).len() == k as int);
                assert(prev.len() == k as int);
                assert(renamed@ == prev.push(renamed@[k as int]));
                assert(renamed@[k as int]@ =~~= target[k as int]);
                assert forall|t: int| 0 <= t < renamed@.len() implies cols_view(renamed@)[t]
                    =~~= target.take(k as int + 1)[t] by {
                    if t < k as int {
                        assert(cols_view(prev)[t] == target.take(k as int)[t]);
                        assert(renamed@[t] == prev[t]);
                    }
                }
                assert(cols_view(renamed@) =~~= target.take(k as int + 1));
                assert(right_cols.len() == right_cols@.len());
                assert(k as int + 1 <= dv.len() <= usize::MAX);
            }
            k = k + 1;
        }
        proof {
            assert(cols_view(renamed@) =~~= target);
        }
        // Horizontal append, then validate the assembled table.
        let mut combined = df_left.columns;
        let ghost left_part = combined@;
        combined.append(&mut renamed);
        proof {
            assert(cols_view(left_part) == lv);
            assert(cols_view(combined@) =~~= lv + target);
        }
        match DataFrame::new(combined) {
            Ok(df) => Ok(df),
            Err(_) => Err(JoinError::MaterializationFailure),
        }
    }
}

} // verus!

verus! {

/// Whether two equally typed cell vectors hold the same values.
fn eq_vec_u32(l: &Vec<Option<u32>>, r: &Vec<Option<u32>>) -> (res: bool)
    ensures
        res == (l@ == r@),
{
    if l.len() != r.len() {
        return false;
    }
    let mut i: usize = 0;
    while i < l.len()
        invariant
            l@.len() == r@.len(),
            i <= l@.len(),
            forall|t: int| 0 <= t < i ==> l@[t] == r@[t],
        decreases l@.len() - i,
    {
        let same = match (&l[i], &r[i]) {
            (None, None) => true,
            (Some(x), Some(y)) => *x == *y,
            _ => false,
        };
        if !same {
            proof {
                assert(l@[i as int] != r@[i as int]);
            }
            return false;
        }
        i = i + 1;
    }
    proof {
        assert(l@ =~= r@);
    }
    true
}

/// Whether two equally typed cell vectors hold the same values.
fn eq_vec_i32(l: &Vec<Option<i32>>, r: &Vec<Option<i32>>) -> (res: bool)
    ensures
        res == (l@ == r@),
{
    if l.len() != r.len() {
        return false;
    }
    let mut i: usize = 0;
    while i < l.len()
        invariant
            l@.len() == r@.len(),
            i <= l@.len(),
            forall|t: int| 0 <= t < i ==> l@[t] == r@[t],
        decreases l@.len() - i,
    {
        let same = match (&l[i], &r[i]) {
            (None, None) => true,
            (Some(x), Some(y)) => *x == *y,
            _ => false,
        };
        if !same {
            proof {
                assert(l@[i as int] != r@[i as int]);
            }
            return false;
        }
        i = i + 1;
    }
    proof {
        assert(l@ =~= r@);
    }
    true
}

/// Whether two equally typed cell vectors hold the same values.
fn eq_vec_i64(l: &Vec<Option<i64>>, r: &Vec<Option<i64>>) -> (res: bool)
    ensures
        res == (l@ == r@),
{
    if l.len() != r.len() {
        return false;
    }
    let mut i: usize = 0;
    while i < l.len()
        invariant
            l@.len() == r@.len(),
            i <= l@.len(),
            forall|t: int| 0 <= t < i ==> l@[t] == r@[t],
        decreases l@.len() - i,
    {
        let same = match (&l[i], &r[i]) {
            (None, None) => true,
            (Some(x), Some(y)) => *x == *y,
            _ => false,
        };
        if !same {
            proof {
                assert(l@[i as int] != r@[i as int]);
            }
            return false;
        }
        i = i + 1;
    }
    proof {
        assert(l@ =~= r@);
    }
    true
}

/// Whether two equally typed cell vectors hold the same values.
fn eq_vec_bool(l: &Vec<Option<bool>>, r: &Vec<Option<bool>>) -> (res: bool)
    ensures
        res == (l@ == r@),
{
    if l.len() != r.len() {
        return false;
    }
    let mut i: usize = 0;
    while i < l.len()
        invariant
            l@.len() == r@.len(),
            i <= l@.len(),
            forall|t: int| 0 <= t < i ==> l@[t] == r@[t],
        decreases l@.len() - i,
    {
        let same = match (&l[i], &r[i]) {
            (None, None) => true,
            (Some(x), Some(y)) => *x == *y,
            _ => false,
        };
        if !same {
            proof {
                assert(l@[i as int] != r@[i as int]);
            }
            return false;
        }
        i = i + 1;
    }
    proof {
        assert(l@ =~= r@);
    }
    true
}

/// Whether two equally typed cell vectors hold the same values.
fn eq_vec_u64(l: &Vec<Option<u64>>, r: &Vec<Option<u64>>) -> (res: bool)
    ensures
        res == (l@ == r@),
{
    if l.len() != r.len() {
        return false;
    }
    let mut i: usize = 0;
    while i < l.len()
        invariant
            l@.len() == r@.len(),
            i <= l@.len(),
            forall|t: int| 0 <= t < i ==> l@[t] == r@[t],
        decreases l@.len() - i,
    {
        let same = match (&l[i], &r[i]) {
            (None, None) => true,
            (Some(x), Some(y)) => *x == *y,
            _ => false,
        };
        if !same {
            proof {
                assert(l@[i as int] != r@[i as int]);
            }
            return false;
        }
        i = i + 1;
    }
    proof {
        assert(l@ =~= r@);
    }
    true
}

/// Whether two text cell vectors hold the same values, nulls equal to
/// nulls.
fn eq_vec_text(l: &Vec<Option<String>>, r: &Vec<Option<String>>) -> (res: bool)
    ensures
        res == (conv_text_seq(l@) == conv_text_seq(r@)),
{
    if l.len() != r.len() {
        proof {
            assert(conv_text_seq(l@).len() != conv_text_seq(r@).len());
        }
        return false;
    }
    let mut i: usize = 0;
    while i < l.len()
        invariant
            l@.len() == r@.len(),
            i <= l@.len(),
            forall|t: int| 0 <= t < i ==> conv_text(l@[t]) == conv_text(r@[t]),
        decreases l@.len() - i,
    {
        let same = match (&l[i], &r[i]) {
            (None, None) => true,
            (Some(x), Some(y)) => x.eq(y),
            _ => false,
        };
        if !same {
            proof {
                assert(conv_text(l@[i as int]) != conv_text(r@[i as int]));
                assert(conv_text_seq(l@)[i as int] != conv_text_seq(r@)[i as int]);
            }
            return false;
        }
        i = i + 1;
    }
    proof {
        assert(conv_text_seq(l@) =~= conv_text_seq(r@));
    }
    true
}

/// The cell values a text vector stands for.
pub open spec fn conv_text_seq(v: Seq<Option<String>>) -> Seq<Option<ValView>> {
    v.map_values(|c: Option<String>| conv_text(c))
}

/// Whether two columns' storages hold the same kind and cells.
fn data_equal(l: &ColumnData, r: &ColumnData) -> (res: bool)
    ensures
        res == (l.kind() == r.kind() && l.cells() == r.cells()),
{
    match (l, r) {
        (ColumnData::UInt32(lv), ColumnData::UInt32(rv)) => {
            let res = eq_vec_u32(lv, rv);
            proof {
                if res {
                    assert(l.cells() =~= r.cells());
                } else {
                    lemma_map_unequal(lv@, rv@, l.cells(), r.cells());
                }
            }
            res
        },
        (ColumnData::Int32(lv), ColumnData::Int32(rv)) => {
            let res = eq_vec_i32(lv, rv);
            proof {
                if res {
                    assert(l.cells() =~= r.cells());
                } else {
                    lemma_map_unequal_i32(lv@, rv@, l.cells(), r.cells());
                }
            }
            res
        },
        (ColumnData::Int64(lv), ColumnData::Int64(rv)) => {
            let res = eq_vec_i64(lv, rv);
            proof {
                if res {
                    assert(l.cells() =~= r.cells());
                } else {
                    lemma_map_unequal_i64(lv@, rv@, l.cells(), r.cells());
                }
            }
            res
        },
        (ColumnData::Boolean(lv), ColumnData::Boolean(rv)) => {
            let res = eq_vec_bool(lv, rv);
            proof {
                if res {
                    assert(l.cells() =~= r.cells());
                } else {
                    lemma_map_unequal_bool(lv@, rv@, l.cells(), r.cells());
                }
            }
            res
        },
        (ColumnData::Text(lv), ColumnData::Text(rv)) => {
            let res = eq_vec_text(lv, rv);
            proof {
                if res {
                    assert(l.cells() =~= r.cells());
                }
            }
            res
        },
        (ColumnData::F64Bits(lv), ColumnData::F64Bits(rv)) => {
            let res = eq_vec_u64(lv, rv);
            proof {
                if res {
                    assert(l.cells() =~= r.cells());
                } else {
                    lemma_map_unequal_u64(lv@, rv@, l.cells(), r.cells());
                }
            }
            res
        },
        _ => false,
    }
}

proof fn lemma_map_unequal(
    lv: Seq<Option<u32>>,
    rv: Seq<Option<u32>>,
    lc: Seq<Option<ValView>>,
    rc: Seq<Option<ValView>>,
)
    requires
        lv != rv,
        lc == lv.map_values(|c: Option<u32>| conv_u32(c)),
        rc == rv.map_values(|c: Option<u32>| conv_u32(c)),
    ensures
        lc != rc,
{
    if lc == rc {
        assert(lc.len() == lv.len() && rc.len() == rv.len());
        assert(lv.len() == rv.len());
        assert(lv =~= rv) by {
            assert forall|i: int| 0 <= i < lv.len() implies lv[i] == rv[i] by {
                assert(lc[i] == rc[i]);
                assert(lc[i] == conv_u32(lv[i]));
                assert(rc[i] == conv_u32(rv[i]));
                if lv[i] != rv[i] {
                    match (lv[i], rv[i]) {
                        (Some(x), Some(y)) => {
                            assert(conv_u32(lv[i]) != conv_u32(rv[i]));
                        },
                        _ => {
                            assert(conv_u32(lv[i]) != conv_u32(rv[i]));
                        },
                    }
                }
            }
        }
    }
}

proof fn lemma_map_unequal_i32(
    lv: Seq<Option<i32>>,
    rv: Seq<Option<i32>>,
    lc: Seq<Option<ValView>>,
    rc: Seq<Option<ValView>>,
)
    requires
        lv != rv,
        lc == lv.map_values(|c: Option<i32>| conv_i32(c)),
        rc == rv.map_values(|c: Option<i32>| conv_i32(c)),
    ensures
        lc != rc,
{
    if lc == rc {
        assert(lc.len() == lv.len() && rc.len() == rv.len());
        assert(lv.len() == rv.len());
        assert(lv =~= rv) by {
            assert forall|i: int| 0 <= i < lv.len() implies lv[i] == rv[i] by {
                assert(lc[i] == rc[i]);
                assert(lc[i] == conv_i32(lv[i]));
                assert(rc[i] == conv_i32(rv[i]));
                if lv[i] != rv[i] {
                    match (lv[i], rv[i]) {
                        (Some(x), Some(y)) => {
                            assert(conv_i32(lv[i]) != conv_i32(rv[i]));
                        },
                        _ => {
                            assert(conv_i32(lv[i]) != conv_i32(rv[i]));
                        },
                    }
                }
            }
        }
    }
}

proof fn lemma_map_unequal_i64(
    lv: Seq<Option<i64>>,
    rv: Seq<Option<i64>>,
    lc: Seq<Option<ValView>>,
    rc: Seq<Option<ValView>>,
)
    requires
        lv != rv,
        lc == lv.map_values(|c: Option<i64>| conv_i64(c)),
        rc == rv.map_values(|c: Option<i64>| conv_i64(c)),
    ensures
        lc != rc,
{
    if lc == rc {
        assert(lc.len() == lv.len() && rc.len() == rv.len());
        assert(lv.len() == rv.len());
        assert(lv =~= rv) by {
            assert forall|i: int| 0 <= i < lv.len() implies lv[i] == rv[i] by {
                assert(lc[i] == rc[i]);
                assert(lc[i] == conv_i64(lv[i]));
                assert(rc[i] == conv_i64(rv[i]));
                if lv[i] != rv[i] {
                    match (lv[i], rv[i]) {
                        (Some(x), Some(y)) => {
                            assert(conv_i64(lv[i]) != conv_i64(rv[i]));
                        },
                        _ => {
                            assert(conv_i64(lv[i]) != conv_i64(rv[i]));
                        },
                    }
                }
            }
        }
    }
}

proof fn lemma_map_unequal_bool(
    lv: Seq<Option<bool>>,
    rv: Seq<Option<bool>>,
    lc: Seq<Option<ValView>>,
    rc: Seq<Option<ValView>>,
)
    requires
        lv != rv,
        lc == lv.map_values(|c: Option<bool>| conv_bool(c)),
        rc == rv.map_values(|c: Option<bool>| conv_bool(c)),
    ensures
        lc != rc,
{
    if lc == rc {
        assert(lc.len() == lv.len() && rc.len() == rv.len());
        assert(lv.len() == rv.len());
        assert(lv =~= rv) by {
            assert forall|i: int| 0 <= i < lv.len() implies lv[i] == rv[i] by {
                assert(lc[i] == rc[i]);
                assert(lc[i] == conv_bool(lv[i]));
                assert(rc[i] == conv_bool(rv[i]));
                if lv[i] != rv[i] {
                    match (lv[i], rv[i]) {
                        (Some(x), Some(y)) => {
                            assert(conv_bool(lv[i]) != conv_bool(rv[i]));
                        },
                        _ => {
                            assert(conv_bool(lv[i]) != conv_bool(rv[i]));
                        },
                    }
                }
            }
        }
    }
}

proof fn lemma_map_unequal_u64(
    lv: Seq<Option<u64>>,
    rv: Seq<Option<u64>>,
    lc: Seq<Option<ValView>>,
    rc: Seq<Option<ValView>>,
)
    requires
        lv != rv,
        lc == lv.map_values(|c: Option<u64>| conv_f64bits(c)),
        rc == rv.map_values(|c: Option<u64>| conv_f64bits(c)),
    ensures
        lc != rc,
{
    if lc == rc {
        assert(lc.len() == lv.len() && rc.len() == rv.len());
        assert(lv.len() == rv.len());
        assert(lv =~= rv) by {
            assert forall|i: int| 0 <= i < lv.len() implies lv[i] == rv[i] by {
                assert(lc[i] == rc[i]);
                assert(lc[i] == conv_f64bits(lv[i]));
                assert(rc[i] == conv_f64bits(rv[i]));
                if lv[i] != rv[i] {
                    match (lv[i], rv[i]) {
                        (Some(x), Some(y)) => {
                            assert(conv_f64bits(lv[i]) != conv_f64bits(rv[i]));
                        },
                        _ => {
                            assert(conv_f64bits(lv[i]) != conv_f64bits(rv[i]));
                        },
                    }
                }
            }
        }
    }
}

impl DataFrame {
    /// Whether two tables hold the same columns: same names, kinds and cell
    /// values, in the same order, nulls equal to nulls.
    pub fn frame_equal(&self, other: &DataFrame) -> (res: bool)
        ensures
            res == (self@ =~~= other@),
    {
        if self.columns.len() != other.columns.len() {
            return false;
        }
        let mut i: usize = 0;
        while i < self.columns.len()
            invariant
                self@.len() == other@.len(),
                i <= self@.len(),
                forall|t: int| 0 <= t < i ==> self@[t] =~~= other@[t],
            decreases self@.len() - i,
        {
            if !self.columns[i].name.eq(&other.columns[i].name) {
                proof {
                    assert(self@[i as int].name != other@[i as int].name);
                }
                return false;
            }
            if !data_equal(&self.columns[i].data, &other.columns[i].data) {
                proof {
                    assert(self@[i as int].kind != other@[i as int].kind || self@[i as int].cells
                        != other@[i as int].cells);
                }
                return false;
            }
            proof {
                assert(self@[i as int] =~~= other@[i as int]);
            }
            i = i + 1;
        }
        true
    }
}

} // verus!
