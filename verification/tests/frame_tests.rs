use framejoin::errors::JoinError;
use framejoin::frame::Column;
use framejoin::frame::ColumnData;
use framejoin::frame::DataFrame;

fn col_i32(name: &str, cells: Vec<Option<i32>>) -> Column {
    Column { name: name.to_string(), data: ColumnData::Int32(cells) }
}

#[test]
fn test_new_rejects_ragged_heights() {
    let err = DataFrame::new(vec![
        col_i32("a", vec![Some(1), Some(2)]),
        col_i32("b", vec![Some(1)]),
    ])
    .unwrap_err();
    assert_eq!(err, JoinError::MaterializationFailure);
}

#[test]
fn test_new_rejects_duplicate_names() {
    let err = DataFrame::new(vec![
        col_i32("a", vec![Some(1)]),
        col_i32("a", vec![Some(2)]),
    ])
    .unwrap_err();
    assert_eq!(err, JoinError::MaterializationFailure);
}

#[test]
fn test_take_opt_gathers_and_nulls() {
    let df = DataFrame::new(vec![col_i32("a", vec![Some(10), Some(20), Some(30)])]).unwrap();
    let out = df.take_opt(&vec![Some(2usize), None, Some(0)]).unwrap();
    let col = out.column(&"a".to_string()).unwrap();
    match &col.data {
        ColumnData::Int32(cells) => {
            assert_eq!(cells.as_slice(), &[Some(30), None, Some(10)])
        }
        _ => panic!("a should be 32-bit integers"),
    }
}

#[test]
fn test_take_opt_out_of_bounds() {
    let df = DataFrame::new(vec![col_i32("a", vec![Some(10), Some(20)])]).unwrap();
    let err = df.take_opt(&vec![Some(5usize)]).unwrap_err();
    assert_eq!(err, JoinError::MaterializationFailure);
}

#[test]
fn test_create_left_df() {
    let df = DataFrame::new(vec![col_i32("a", vec![Some(10), Some(20), Some(30)])]).unwrap();
    let tuples: Vec<(usize, usize)> = vec![(2, 0), (0, 1)];
    let out = df.create_left_df(&tuples).unwrap();
    let col = out.column(&"a".to_string()).unwrap();
    match &col.data {
        ColumnData::Int32(cells) => assert_eq!(cells.as_slice(), &[Some(30), Some(10)]),
        _ => panic!("a should be 32-bit integers"),
    }
}

#[test]
fn test_finish_join_renames_collisions() {
    let base = DataFrame::new(vec![]).unwrap();
    let left = DataFrame::new(vec![
        col_i32("k", vec![Some(1)]),
        col_i32("x", vec![Some(2)]),
    ])
    .unwrap();
    let right = DataFrame::new(vec![
        col_i32("k", vec![Some(1)]),
        col_i32("x", vec![Some(3)]),
    ])
    .unwrap();
    let out = base.finish_join(left, right, &"k".to_string()).unwrap();
    assert_eq!(out.width(), 3);
    let renamed = out.column(&"x_right".to_string()).unwrap();
    match &renamed.data {
        ColumnData::Int32(cells) => assert_eq!(cells.as_slice(), &[Some(3)]),
        _ => panic!("x_right should be 32-bit integers"),
    }
}

#[test]
fn test_finish_join_duplicate_after_suffix() {
    let base = DataFrame::new(vec![]).unwrap();
    let left = DataFrame::new(vec![
        col_i32("k", vec![Some(1)]),
        col_i32("x", vec![Some(2)]),
        col_i32("x_right", vec![Some(9)]),
    ])
    .unwrap();
    let right = DataFrame::new(vec![
        col_i32("k", vec![Some(1)]),
        col_i32("x", vec![Some(3)]),
    ])
    .unwrap();
    let err = base.finish_join(left, right, &"k".to_string()).unwrap_err();
    assert_eq!(err, JoinError::MaterializationFailure);
}

#[test]
fn test_outer_join_coalesces_nulls() {
    // An unmatched right row leaves a null in the gathered left key column;
    // coalescing fills it from the right side.
    let left = DataFrame::new(vec![col_i32("k", vec![Some(1)])]).unwrap();
    let right = DataFrame::new(vec![col_i32("k", vec![Some(2)])]).unwrap();
    let joined = left.outer_join(&right, "k", "k").unwrap();
    assert_eq!(joined.height(), 2);
    let col = joined.column(&"k".to_string()).unwrap();
    match &col.data {
        ColumnData::Int32(cells) => {
            assert_eq!(cells.len(), 2);
            assert!(cells.contains(&Some(1)));
            assert!(cells.contains(&Some(2)));
        }
        _ => panic!("k should be 32-bit integers"),
    }
}

#[test]
fn test_frame_equal_distinguishes() {
    let a = DataFrame::new(vec![col_i32("a", vec![Some(1), None])]).unwrap();
    let b = DataFrame::new(vec![col_i32("a", vec![Some(1), None])]).unwrap();
    let c = DataFrame::new(vec![col_i32("a", vec![Some(1), Some(2)])]).unwrap();
    let d = DataFrame::new(vec![col_i32("b", vec![Some(1), None])]).unwrap();
    assert!(a.frame_equal(&b));
    assert!(!a.frame_equal(&c));
    assert!(!a.frame_equal(&d));
}

#[test]
fn test_text_outer_join_coalesce() {
    let left = DataFrame::new(vec![Column {
        name: "k".to_string(),
        data: ColumnData::Text(vec![Some("a".to_string())]),
    }])
    .unwrap();
    let right = DataFrame::new(vec![Column {
        name: "k".to_string(),
        data: ColumnData::Text(vec![Some("b".to_string())]),
    }])
    .unwrap();
    let joined = left.outer_join(&right, "k", "k").unwrap();
    assert_eq!(joined.height(), 2);
    let col = joined.column(&"k".to_string()).unwrap();
    match &col.data {
        ColumnData::Text(cells) => {
            assert_eq!(cells.len(), 2);
            assert!(cells.contains(&Some("a".to_string())));
            assert!(cells.contains(&Some("b".to_string())));
        }
        _ => panic!("k should be text"),
    }
}

#[test]
fn test_inner_join_suffix_collision_fails() {
    let left = DataFrame::new(vec![
        col_i32("k", vec![Some(1)]),
        col_i32("x", vec![Some(2)]),
        col_i32("x_right", vec![Some(9)]),
    ])
    .unwrap();
    let right = DataFrame::new(vec![
        col_i32("k", vec![Some(1)]),
        col_i32("x", vec![Some(3)]),
    ])
    .unwrap();
    let err = left.inner_join(&right, "k", "k").unwrap_err();
    assert_eq!(err, JoinError::MaterializationFailure);
}

#[test]
fn test_join_on_differently_named_keys() {
    let left = DataFrame::new(vec![
        col_i32("id", vec![Some(1), Some(2)]),
        col_i32("v", vec![Some(10), Some(20)]),
    ])
    .unwrap();
    let right = DataFrame::new(vec![
        col_i32("ref_id", vec![Some(2)]),
        col_i32("w", vec![Some(7)]),
    ])
    .unwrap();
    let joined = left.inner_join(&right, "id", "ref_id").unwrap();
    assert_eq!(joined.height(), 1);
    assert_eq!(joined.width(), 3);
    assert!(joined.column(&"ref_id".to_string()).is_none());
    let w = joined.column(&"w".to_string()).unwrap();
    match &w.data {
        ColumnData::Int32(cells) => assert_eq!(cells.as_slice(), &[Some(7)]),
        _ => panic!("w should be 32-bit integers"),
    }
}
