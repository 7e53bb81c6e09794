use framejoin::errors::JoinError;
use framejoin::frame::Column;
use framejoin::frame::ColumnData;
use framejoin::frame::DataFrame;
use framejoin::join::HashJoin;
use framejoin::relation::prepare_hashed_relation;
use framejoin::tuples::hash_join_tuples_inner;
use framejoin::tuples::hash_join_tuples_left;
use framejoin::tuples::hash_join_tuples_outer;
use framejoin::value::KeyValue;

fn keys_u32(values: Vec<Option<u32>>) -> Vec<KeyValue> {
    values
        .into_iter()
        .map(|v| match v {
            Some(x) => KeyValue::U32(x),
            None => KeyValue::Null,
        })
        .collect()
}

#[test]
fn test_prepare_hashed_relation_buckets() {
    let b = keys_u32(vec![Some(1), Some(2), Some(1)]);
    let rel = prepare_hashed_relation(&b);
    let bucket = rel.get(&KeyValue::U32(1)).unwrap();
    assert_eq!(bucket.as_slice(), &[0usize, 2usize]);
    let bucket2 = rel.get(&KeyValue::U32(2)).unwrap();
    assert_eq!(bucket2.as_slice(), &[1usize]);
    assert!(rel.get(&KeyValue::U32(3)).is_none());
}

#[test]
fn test_inner_tuples_probe_order() {
    let a = keys_u32(vec![Some(1), Some(2), Some(3), Some(1)]);
    let b = keys_u32(vec![Some(1), Some(2)]);
    let tuples = hash_join_tuples_inner(&a, &b, false);
    assert_eq!(tuples, vec![(0, 0), (1, 1), (3, 0)]);
    let swapped = hash_join_tuples_inner(&a, &b, true);
    assert_eq!(swapped, vec![(0, 0), (1, 1), (0, 3)]);
}

#[test]
fn test_inner_tuples_cardinality() {
    // Each of the two left rows with key 1 pairs with each of the two right
    // rows with key 1: four pairs, nulls matching nulls adds one more.
    let a = keys_u32(vec![Some(1), Some(1), None]);
    let b = keys_u32(vec![Some(1), Some(1), None]);
    let tuples = hash_join_tuples_inner(&a, &b, false);
    assert_eq!(tuples.len(), 5);
}

#[test]
fn test_left_tuples_coverage() {
    let a = keys_u32(vec![Some(0), Some(1)]);
    let b = keys_u32(vec![Some(1)]);
    let tuples = hash_join_tuples_left(&a, &b);
    assert_eq!(tuples, vec![(0, None), (1, Some(0))]);
}

#[test]
fn test_outer_tuples_dedup() {
    // Both directional passes discover both matched pairs; the merge keeps
    // each exactly once.
    let a = keys_u32(vec![Some(1)]);
    let b = keys_u32(vec![Some(1), Some(1)]);
    let tuples = hash_join_tuples_outer(&a, &b).unwrap();
    assert_eq!(tuples.len(), 2);
    assert!(tuples.contains(&(Some(0), Some(0))));
    assert!(tuples.contains(&(Some(0), Some(1))));
}

#[test]
fn test_outer_tuples_unmatched_sides() {
    let a = keys_u32(vec![Some(1), Some(7)]);
    let b = keys_u32(vec![Some(1), Some(9)]);
    let tuples = hash_join_tuples_outer(&a, &b).unwrap();
    assert_eq!(tuples.len(), 3);
    assert!(tuples.contains(&(Some(0), Some(0))));
    assert!(tuples.contains(&(Some(1), None)));
    assert!(tuples.contains(&(None, Some(1))));
}

#[test]
fn test_swap_invariance_pairs() {
    let l = Column {
        name: "k".to_string(),
        data: ColumnData::UInt32(vec![Some(1), Some(2), Some(1)]),
    };
    let r = Column {
        name: "k".to_string(),
        data: ColumnData::UInt32(vec![Some(1), Some(3), Some(1), Some(2)]),
    };
    let mut ab = l.hash_join_inner(&r).unwrap();
    let mut ba: Vec<(usize, usize)> = r
        .hash_join_inner(&l)
        .unwrap()
        .into_iter()
        .map(|(x, y)| (y, x))
        .collect();
    ab.sort();
    ba.sort();
    assert_eq!(ab, ba);
}

#[test]
fn test_null_keys_match_all_kinds() {
    let l = Column {
        name: "k".to_string(),
        data: ColumnData::UInt32(vec![Some(1), None]),
    };
    let r = Column {
        name: "k".to_string(),
        data: ColumnData::UInt32(vec![None, Some(5)]),
    };
    let inner = l.hash_join_inner(&r).unwrap();
    assert_eq!(inner, vec![(1, 0)]);
    let left = l.hash_join_left(&r).unwrap();
    assert_eq!(left, vec![(0, None), (1, Some(0))]);
    let outer = l.hash_join_outer(&r).unwrap();
    assert_eq!(outer.len(), 3);
    assert!(outer.contains(&(Some(1), Some(0))));
    assert!(outer.contains(&(Some(0), None)));
    assert!(outer.contains(&(None, Some(1))));
}

#[test]
fn test_key_not_found() {
    let left = DataFrame::new(vec![Column {
        name: "a".to_string(),
        data: ColumnData::Int32(vec![Some(1)]),
    }])
    .unwrap();
    let right = DataFrame::new(vec![Column {
        name: "b".to_string(),
        data: ColumnData::Int32(vec![Some(1)]),
    }])
    .unwrap();
    assert_eq!(
        left.inner_join(&right, "missing", "b").unwrap_err(),
        JoinError::KeyNotFound
    );
    assert_eq!(
        left.left_join(&right, "a", "missing").unwrap_err(),
        JoinError::KeyNotFound
    );
    assert_eq!(
        left.outer_join(&right, "missing", "missing").unwrap_err(),
        JoinError::KeyNotFound
    );
}

#[test]
fn test_unsupported_key_type() {
    let left = DataFrame::new(vec![Column {
        name: "k".to_string(),
        data: ColumnData::F64Bits(vec![Some(1.5f64.to_bits())]),
    }])
    .unwrap();
    let right = DataFrame::new(vec![Column {
        name: "k".to_string(),
        data: ColumnData::F64Bits(vec![Some(1.5f64.to_bits())]),
    }])
    .unwrap();
    assert_eq!(
        left.inner_join(&right, "k", "k").unwrap_err(),
        JoinError::UnsupportedKeyType
    );

    let ints = DataFrame::new(vec![Column {
        name: "k".to_string(),
        data: ColumnData::Int32(vec![Some(1)]),
    }])
    .unwrap();
    let longs = DataFrame::new(vec![Column {
        name: "k".to_string(),
        data: ColumnData::Int64(vec![Some(1)]),
    }])
    .unwrap();
    assert_eq!(
        ints.left_join(&longs, "k", "k").unwrap_err(),
        JoinError::UnsupportedKeyType
    );
}

#[test]
fn test_text_join_with_nulls() {
    let left = DataFrame::new(vec![
        Column {
            name: "name".to_string(),
            data: ColumnData::Text(vec![
                Some("ada".to_string()),
                None,
                Some("grace".to_string()),
            ]),
        },
        int_col_named("v", vec![1, 2, 3]),
    ])
    .unwrap();
    let right = DataFrame::new(vec![
        Column {
            name: "name".to_string(),
            data: ColumnData::Text(vec![Some("grace".to_string()), None]),
        },
        int_col_named("w", vec![10, 20]),
    ])
    .unwrap();
    let joined = left.inner_join(&right, "name", "name").unwrap();
    // Probe side is the longer left table: row order follows it.
    assert_eq!(joined.height(), 2);
    let v = joined.column(&"v".to_string()).unwrap();
    match &v.data {
        ColumnData::Int32(cells) => assert_eq!(cells.as_slice(), &[Some(2), Some(3)]),
        _ => panic!("v should be 32-bit integers"),
    }
    let w = joined.column(&"w".to_string()).unwrap();
    match &w.data {
        ColumnData::Int32(cells) => assert_eq!(cells.as_slice(), &[Some(20), Some(10)]),
        _ => panic!("w should be 32-bit integers"),
    }
}

fn int_col_named(name: &str, values: Vec<i32>) -> Column {
    let cells = values.into_iter().map(Some).collect();
    Column { name: name.to_string(), data: ColumnData::Int32(cells) }
}

#[test]
fn test_boolean_join() {
    let left = DataFrame::new(vec![Column {
        name: "flag".to_string(),
        data: ColumnData::Boolean(vec![Some(true), Some(false)]),
    }])
    .unwrap();
    let right = DataFrame::new(vec![Column {
        name: "flag".to_string(),
        data: ColumnData::Boolean(vec![Some(false)]),
    }])
    .unwrap();
    let joined = left.inner_join(&right, "flag", "flag").unwrap();
    assert_eq!(joined.height(), 1);
}
