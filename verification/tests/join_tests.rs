use framejoin::frame::Column;
use framejoin::frame::ColumnData;
use framejoin::frame::DataFrame;

fn int32_col(name: &str, values: Vec<i32>) -> Column {
    let cells = values.into_iter().map(Some).collect();
    Column { name: name.to_string(), data: ColumnData::Int32(cells) }
}

fn f64_col(name: &str, values: Vec<f64>) -> Column {
    let cells = values.into_iter().map(|v| Some(v.to_bits())).collect();
    Column { name: name.to_string(), data: ColumnData::F64Bits(cells) }
}

fn create_frames() -> (DataFrame, DataFrame) {
    let s0 = int32_col("days", vec![0, 1, 2]);
    let s1 = f64_col("temp", vec![22.1, 19.9, 7.]);
    let s2 = f64_col("rain", vec![0.2, 0.1, 0.3]);
    let temp = DataFrame::new(vec![s0, s1, s2]).unwrap();

    let s0 = int32_col("days", vec![1, 2, 3, 1]);
    let s1 = f64_col("rain", vec![0.1, 0.2, 0.3, 0.4]);
    let rain = DataFrame::new(vec![s0, s1]).unwrap();
    (temp, rain)
}

#[test]
fn test_inner_join() {
    let (temp, rain) = create_frames();
    let joined = temp.inner_join(&rain, "days", "days").unwrap();

    let join_col_days = int32_col("days", vec![1, 2, 1]);
    let join_col_temp = f64_col("temp", vec![19.9, 7., 19.9]);
    let join_col_rain = f64_col("rain", vec![0.1, 0.3, 0.1]);
    let join_col_rain_right = f64_col("rain_right", vec![0.1, 0.2, 0.4]);
    let true_df = DataFrame::new(vec![
        join_col_days,
        join_col_temp,
        join_col_rain,
        join_col_rain_right,
    ])
    .unwrap();

    assert!(joined.frame_equal(&true_df));
}

#[test]
fn test_left_join() {
    let s0 = int32_col("days", vec![0, 1, 2, 3, 4]);
    let s1 = f64_col("temp", vec![22.1, 19.9, 7., 2., 3.]);
    let temp = DataFrame::new(vec![s0, s1]).unwrap();

    let s0 = int32_col("days", vec![1, 2]);
    let s1 = f64_col("rain", vec![0.1, 0.2]);
    let rain = DataFrame::new(vec![s0, s1]).unwrap();
    let joined = temp.left_join(&rain, "days", "days").unwrap();

    let col = joined.column(&"rain".to_string()).unwrap();
    let (sum, nulls) = match &col.data {
        ColumnData::F64Bits(v) => {
            let mut sum: f32 = 0.;
            let mut nulls: usize = 0;
            for c in v {
                match c {
                    Some(bits) => sum += f64::from_bits(*bits) as f32,
                    None => nulls += 1,
                }
            }
            (sum, nulls)
        }
        _ => panic!("rain column should carry f64 bit patterns"),
    };
    assert_eq!((sum * 10.).round(), 3.);
    assert_eq!(nulls, 3);
}

#[test]
fn test_outer_join() {
    let (temp, rain) = create_frames();
    let joined = temp.outer_join(&rain, "days", "days").unwrap();
    assert_eq!(joined.height(), 5);
    let col = joined.column(&"days".to_string()).unwrap();
    let sum = match &col.data {
        ColumnData::Int32(v) => {
            let mut sum: i32 = 0;
            let mut saw = false;
            for c in v {
                if let Some(x) = c {
                    sum += *x;
                    saw = true;
                }
            }
            if saw { Some(sum) } else { None }
        }
        _ => panic!("days column should be 32-bit integers"),
    };
    assert_eq!(sum, Some(7));
}
