//! Scalar key values and their mathematical views.
//!
//! A key is a scalar of one element kind carrying an explicit null marker.
//! Two keys are *join-equal* iff both are null, or both are non-null and
//! structurally equal.  Null-equals-null is a deliberate deviation from SQL
//! semantics and is preserved exactly.

use vstd::prelude::*;

verus! {

/// The element kinds a key column may have.  Floating-point columns are
/// carried through materialization as raw IEEE-754 bit patterns and are not
/// joinable keys.
#[derive(Clone, Copy, PartialEq, Eq, Structural, Debug)]
pub enum ElemKind {
    UInt32,
    Int32,
    Int64,
    Boolean,
    Text,
    F64Bits,
}

/// The mathematical value of one non-null table cell.
pub enum ValView {
    U32(u32),
    I32(i32),
    I64(i64),
    Bool(bool),
    Text(Seq<char>),
    F64Bits(u64),
}

/// A null-aware scalar key value.  `Null` is join-equal to `Null` only.
#[derive(Debug)]
pub enum KeyValue {
    U32(u32),
    I32(i32),
    I64(i64),
    Bool(bool),
    Text(String),
    Null,
}

impl View for KeyValue {
    type V = Option<ValView>;

    open spec fn view(&self) -> Option<ValView> {
        match self {
            KeyValue::U32(v) => Some(ValView::U32(*v)),
            KeyValue::I32(v) => Some(ValView::I32(*v)),
            KeyValue::I64(v) => Some(ValView::I64(*v)),
            KeyValue::Bool(v) => Some(ValView::Bool(*v)),
            KeyValue::Text(s) => Some(ValView::Text(s@)),
            KeyValue::Null => None,
        }
    }
}

/// The sequence of cell values a vector of keys stands for.
pub open spec fn key_views(v: Seq<KeyValue>) -> Seq<Option<ValView>> {
    v.map_values(|k: KeyValue| k@)
}

/// Join-equality: null equals null; non-nulls are equal iff their kinds and
/// payloads agree.
pub fn key_eq(x: &KeyValue, y: &KeyValue) -> (r: bool)
    ensures
        r == (x@ == y@),
{
    match (x, y) {
        (KeyValue::U32(a), KeyValue::U32(b)) => *a == *b,
        (KeyValue::I32(a), KeyValue::I32(b)) => *a == *b,
        (KeyValue::I64(a), KeyValue::I64(b)) => *a == *b,
        (KeyValue::Bool(a), KeyValue::Bool(b)) => *a == *b,
        (KeyValue::Text(a), KeyValue::Text(b)) => a.eq(b),
        (KeyValue::Null, KeyValue::Null) => true,
        _ => false,
    }
}

/// An owned copy of a key with the same mathematical value.
pub fn clone_key(x: &KeyValue) -> (r: KeyValue)
    ensures
        r@ == x@,
{
    match x {
        KeyValue::U32(v) => KeyValue::U32(*v),
        KeyValue::I32(v) => KeyValue::I32(*v),
        KeyValue::I64(v) => KeyValue::I64(*v),
        KeyValue::Bool(v) => KeyValue::Bool(*v),
        KeyValue::Text(s) => KeyValue::Text(s.clone()),
        KeyValue::Null => KeyValue::Null,
    }
}

} // verus!
