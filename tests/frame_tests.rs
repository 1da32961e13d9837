use chrono::TimeZone;
use rand::Rng;
use utah::aggregate::Ratio;
use utah::frame::DataFrame;
use utah::impute::ImputeStrategy;
use utah::label::{int_to_text, Label};
use utah::matrix::Matrix;
use utah::value::{Axis, FrameError, Value};

fn t(s: &str) -> Label {
    Label::Text(s.to_string())
}

fn labels(names: &[&str]) -> Vec<Label> {
    names.iter().map(|s| t(s)).collect()
}

fn grid(rows: &[&[i64]]) -> Matrix {
    let c = if rows.is_empty() { 0 } else { rows[0].len() };
    let rows: Vec<Vec<Value>> = rows.iter().map(|row| row.iter().map(|x| Value::Int64(*x)).collect()).collect();
    Matrix::from_rows(rows, c).unwrap()
}

fn cells(rows: &[&[Value]]) -> Matrix {
    let c = if rows.is_empty() { 0 } else { rows[0].len() };
    let rows: Vec<Vec<Value>> = rows.iter().map(|row| row.to_vec()).collect();
    Matrix::from_rows(rows, c).unwrap()
}

fn text(s: &str) -> Value {
    Value::Text(s.to_string())
}

#[test]
fn outer_left_join() {
    let left = DataFrame::new(cells(&[&[text("Alice")], &[text("Bob")]]))
        .index(vec![Label::Integer(1), Label::Integer(2)])
        .unwrap();
    let right = DataFrame::new(cells(&[&[text("Programmer")]]))
        .index(vec![Label::Integer(1)])
        .unwrap();
    let res = left.outer_left_join(&right).collect().unwrap();
    let expected = DataFrame::new(cells(&[
        &[text("Alice"), text("Programmer")],
        &[text("Bob"), Value::Missing],
    ]))
    .index(vec![Label::Integer(1), Label::Integer(2)])
    .unwrap()
    .columns(labels(&["0", "0_x"]))
    .unwrap();
    assert_eq!(res, expected);
}

#[test]
fn inner_join() {
    let left = DataFrame::new(cells(&[&[text("Alice")], &[text("Bob")], &[text("Suchin")]]))
        .index(vec![Label::Integer(1), Label::Integer(2), Label::Integer(3)])
        .unwrap();
    let right = DataFrame::new(cells(&[&[text("Programmer")], &[text("Data Scientist")]]))
        .index(vec![Label::Integer(1), Label::Integer(3)])
        .unwrap();
    let res = left.inner_left_join(&right).collect().unwrap();
    let expected = DataFrame::new(cells(&[
        &[text("Alice"), text("Programmer")],
        &[text("Suchin"), text("Data Scientist")],
    ]))
    .index(vec![Label::Integer(1), Label::Integer(3)])
    .unwrap()
    .columns(labels(&["0", "0_x"]))
    .unwrap();
    assert_eq!(res, expected);
}

#[test]
fn dataframe_creation() {
    let a = grid(&[&[2, 3], &[3, 4]]);
    let df = DataFrame::new(a).columns(labels(&["a", "b"]));
    assert!(df.is_ok())
}

#[test]
fn dataframe_creation_datetime_index() {
    let a = grid(&[&[2, 3], &[3, 4]]);
    let first = chrono::Utc.with_ymd_and_hms(2014, 7, 8, 9, 10, 11).unwrap().timestamp();
    let second = chrono::Utc.with_ymd_and_hms(2014, 10, 5, 2, 5, 7).unwrap().timestamp();
    let df = DataFrame::new(a).columns(vec![Label::Timestamp(first), Label::Timestamp(second)]);
    assert!(df.is_ok())
}

#[test]
fn dataframe_index() {
    let a = grid(&[&[2, 3], &[3, 4]]);
    let df = DataFrame::new(a).columns(labels(&["a", "b"])).unwrap();
    let col = df.select(labels(&["a"]), Axis::Column).collect().unwrap();
    let expected = DataFrame::new(grid(&[&[2], &[3]])).columns(labels(&["a"])).unwrap();
    assert!(col == expected)
}

#[test]
fn dataframe_join() {
    let mut rng = rand::thread_rng();
    let mut c_rows: Vec<Vec<i64>> = Vec::new();
    let mut e_rows: Vec<Vec<i64>> = Vec::new();
    let b = [1, 5, 2];
    let f = [1, 0, 2];
    for i in 0..3 {
        c_rows.push(vec![rng.gen_range(0..10), rng.gen_range(0..10), b[i]]);
        e_rows.push(vec![rng.gen_range(0..10), rng.gen_range(0..10), f[i]]);
    }
    let c_ref: Vec<&[i64]> = c_rows.iter().map(|r| r.as_slice()).collect();
    let e_ref: Vec<&[i64]> = e_rows.iter().map(|r| r.as_slice()).collect();
    let c_df = DataFrame::new(grid(&c_ref)).columns(labels(&["1", "2", "3"])).unwrap();
    let e_df = DataFrame::new(grid(&e_ref)).columns(labels(&["4", "5", "3"])).unwrap();

    let joined: Vec<Vec<i64>> = (0..3).map(|i| [c_rows[i].clone(), e_rows[i].clone()].concat()).collect();
    let j_ref: Vec<&[i64]> = joined.iter().map(|r| r.as_slice()).collect();
    let join_df = DataFrame::new(grid(&j_ref))
        .columns(labels(&["1", "2", "3", "4", "5", "3_x"]))
        .unwrap()
        .index(labels(&["0", "1", "2"]));
    let test_df = c_df.inner_left_join(&e_df).collect();
    assert_eq!(join_df.unwrap(), test_df.unwrap())
}

#[test]
fn dataframe_insert() {
    let a = grid(&[&[2, 3], &[3, 4]]);
    let df = DataFrame::new(a).columns(labels(&["a", "b"])).unwrap();
    let new_array = DataFrame::from_array(vec![Value::Int64(5), Value::Int64(6)], Axis::Column);
    let new_df = df.append(t("c"), new_array.line(Axis::Column, 0), Axis::Column).collect();
    let a_prime = grid(&[&[2, 3, 5], &[3, 4, 6]]);
    assert_eq!(DataFrame::new(a_prime).columns(labels(&["a", "b", "c"])).unwrap(), new_df.unwrap())
}

#[test]
fn dataframe_concat() {
    let a = grid(&[&[2, 3], &[3, 4]]);
    let b = grid(&[&[7, 1], &[7, 6]]);
    let df = DataFrame::new(a).columns(labels(&["a", "b"])).unwrap();
    let df_1 = DataFrame::new(b).columns(labels(&["c", "d"])).unwrap();

    let row_concat = df.concat(&df_1, Axis::Row).collect();
    let col_concat = df.concat(&df_1, Axis::Column).collect();

    let a_prime = grid(&[&[2, 3], &[3, 4], &[7, 1], &[7, 6]]);
    let b_prime = grid(&[&[2, 3, 7, 1], &[3, 4, 7, 6]]);
    assert_eq!(
        DataFrame::new(a_prime)
            .columns(labels(&["a", "b"]))
            .unwrap()
            .index(labels(&["0", "1", "0_x", "1_x"]))
            .unwrap(),
        row_concat.unwrap()
    );
    assert_eq!(DataFrame::new(b_prime).columns(labels(&["a", "b", "c", "d"])).unwrap(), col_concat.unwrap())
}

#[test]
fn dataframe_drop_column() {
    let a = grid(&[&[2, 3], &[3, 4]]);
    let df = DataFrame::new(a).columns(labels(&["a", "b"])).unwrap();
    let new_df = df.remove(labels(&["a"]), Axis::Column).collect();
    let a_prime = grid(&[&[3], &[4]]);
    assert_eq!(DataFrame::new(a_prime).columns(labels(&["b"])).unwrap(), new_df.unwrap())
}

#[test]
fn dataframe_drop_row() {
    let a = grid(&[&[2, 3], &[5, 4]]);
    let df = DataFrame::new(a).columns(labels(&["a", "b"])).unwrap();
    let new_df = df.remove(labels(&["1"]), Axis::Row).collect();
    let a_prime = grid(&[&[2, 3]]);
    assert_eq!(DataFrame::new(a_prime).columns(labels(&["a", "b"])).unwrap(), new_df.unwrap())
}

#[test]
fn dataframe_creation_failure() {
    let mut rng = rand::thread_rng();
    let values: Vec<Vec<Value>> = (0..2).map(|_| (0..5).map(|_| Value::Int64(rng.gen_range(0..10))).collect()).collect();
    let a = Matrix::from_rows(values, 5).unwrap();
    let df = DataFrame::new(a).columns(labels(&["1", "2"]));
    assert!(df.is_err())
}

#[test]
fn remove_column_keeps_row_labels() {
    let df = DataFrame::new(grid(&[&[2, 3], &[5, 4]]))
        .columns(labels(&["a", "b"]))
        .unwrap()
        .index(vec![Label::Integer(1), Label::Integer(2)])
        .unwrap();
    let out = df.remove(labels(&["a"]), Axis::Column).collect().unwrap();
    let expected = DataFrame::new(grid(&[&[3], &[4]]))
        .columns(labels(&["b"]))
        .unwrap()
        .index(vec![Label::Integer(1), Label::Integer(2)])
        .unwrap();
    assert_eq!(out, expected);
}

#[test]
fn outer_left_join_combines_all_columns() {
    let a = DataFrame::new(grid(&[&[1, 2], &[3, 4]]))
        .columns(labels(&["a", "b"]))
        .unwrap()
        .index(vec![Label::Integer(1), Label::Integer(2)])
        .unwrap();
    let b = DataFrame::new(grid(&[&[5, 6], &[7, 8]]))
        .columns(labels(&["c", "d"]))
        .unwrap()
        .index(vec![Label::Integer(1), Label::Integer(2)])
        .unwrap();
    let out = a.outer_left_join(&b).collect().unwrap();
    let expected = DataFrame::new(grid(&[&[1, 2, 5, 6], &[3, 4, 7, 8]]))
        .columns(labels(&["a", "b", "c", "d"]))
        .unwrap()
        .index(vec![Label::Integer(1), Label::Integer(2)])
        .unwrap();
    assert_eq!(out, expected);
}

#[test]
fn join_renames_colliding_column() {
    let a = DataFrame::new(grid(&[&[1]])).columns(labels(&["x"])).unwrap();
    let b = DataFrame::new(grid(&[&[2]])).columns(labels(&["x"])).unwrap();
    let out = a.inner_left_join(&b).collect().unwrap();
    assert_eq!(out.columns, labels(&["x", "x_x"]));
    let c = DataFrame::new(grid(&[&[1, 2]])).columns(labels(&["x", "x_x"])).unwrap();
    let out = c.inner_left_join(&b).collect().unwrap();
    assert_eq!(out.columns, labels(&["x", "x_x", "x_x_x"]));
}

#[test]
fn right_joins_drive_from_other() {
    let a = DataFrame::new(grid(&[&[1], &[2]])).index(labels(&["p", "q"])).unwrap();
    let b = DataFrame::new(grid(&[&[10], &[20], &[30]])).index(labels(&["q", "r", "p"])).unwrap();
    let inner = a.inner_right_join(&b).collect().unwrap();
    assert_eq!(inner.index, labels(&["q", "p"]));
    assert_eq!(inner, DataFrame::new(grid(&[&[10, 2], &[30, 1]])).index(labels(&["q", "p"])).unwrap().columns(labels(&["0", "0_x"])).unwrap());
    let outer = a.outer_right_join(&b).collect().unwrap();
    assert_eq!(outer.shape(), (3, 2));
    assert_eq!(outer.index, labels(&["q", "r", "p"]));
}

#[test]
fn join_cardinality_bounds() {
    let a = DataFrame::new(grid(&[&[1], &[2], &[3]])).index(labels(&["p", "q", "s"])).unwrap();
    let b = DataFrame::new(grid(&[&[10], &[20]])).index(labels(&["q", "p"])).unwrap();
    let inner = a.inner_left_join(&b).collect().unwrap();
    assert!(inner.shape().0 <= 2);
    assert_eq!(inner.index, labels(&["p", "q"]));
    let outer = a.outer_left_join(&b).collect().unwrap();
    assert_eq!(outer.shape().0, 3);
}

#[test]
fn join_takes_first_match() {
    let a = DataFrame::new(grid(&[&[1]])).index(labels(&["k"])).unwrap();
    let b = DataFrame::new(grid(&[&[10], &[20]])).index(labels(&["k", "k"])).unwrap();
    let out = a.inner_left_join(&b).collect().unwrap();
    assert_eq!(out, DataFrame::new(grid(&[&[1, 10]])).index(labels(&["k"])).unwrap().columns(labels(&["0", "0_x"])).unwrap());
}

#[test]
fn select_and_remove_split_labels() {
    let df = DataFrame::new(grid(&[&[1, 2, 3], &[4, 5, 6]])).columns(labels(&["a", "b", "c"])).unwrap();
    let sel = df.select(labels(&["c", "a", "zz"]), Axis::Column).collect().unwrap();
    let rem = df.remove(labels(&["c", "a", "zz"]), Axis::Column).collect().unwrap();
    assert_eq!(sel.columns, labels(&["a", "c"]));
    assert_eq!(rem.columns, labels(&["b"]));
    assert_eq!(sel, DataFrame::new(grid(&[&[1, 3], &[4, 6]])).columns(labels(&["a", "c"])).unwrap());
}

#[test]
fn shape_after_operations() {
    let df = DataFrame::new(grid(&[&[1, 2, 3], &[4, 5, 6]]));
    assert_eq!(df.shape(), (2, 3));
    let sel = df.select(labels(&["1"]), Axis::Row).collect().unwrap();
    assert_eq!(sel.shape(), (1, 3));
    let cat = df.concat(&df, Axis::Column).collect().unwrap();
    assert_eq!(cat.shape(), (2, 6));
    assert_eq!(cat.columns, labels(&["0", "1", "2", "0_x", "1_x", "2_x"]));
}

#[test]
fn append_with_wrong_length_fails() {
    let df = DataFrame::new(grid(&[&[1, 2], &[3, 4]]));
    let extra = DataFrame::from_array(vec![Value::Int64(9)], Axis::Row);
    let out = df.append(t("z"), extra.line(Axis::Row, 0), Axis::Row).collect();
    assert_eq!(out, Err(FrameError::ColumnShapeMismatch { expected: 2, found: 1 }));
    let extra = DataFrame::from_array(vec![Value::Int64(9)], Axis::Column);
    let out = df.append(t("z"), extra.line(Axis::Column, 0), Axis::Column).collect();
    assert_eq!(out, Err(FrameError::IndexShapeMismatch { expected: 2, found: 1 }));
}

#[test]
fn label_count_errors() {
    let df = DataFrame::new(grid(&[&[1, 2], &[3, 4]]));
    assert_eq!(
        df.columns(labels(&["a"])),
        Err(FrameError::ColumnShapeMismatch { expected: 2, found: 1 })
    );
    let df = DataFrame::new(grid(&[&[1, 2], &[3, 4]]));
    assert_eq!(
        df.index(labels(&["a", "b", "c"])),
        Err(FrameError::IndexShapeMismatch { expected: 2, found: 3 })
    );
}

#[test]
fn default_labels_are_positions() {
    let df = DataFrame::new(grid(&[&[1, 2, 3]]));
    assert_eq!(df.columns, labels(&["0", "1", "2"]));
    assert_eq!(df.index, labels(&["0"]));
    let df = DataFrame::from_array(vec![Value::Int64(1), Value::Int64(2)], Axis::Row);
    assert_eq!(df.shape(), (1, 2));
}

#[test]
fn aggregates_skip_missing() {
    let df = DataFrame::new(cells(&[
        &[Value::Int64(1), Value::Missing, Value::Int32(5)],
        &[Value::Missing, Value::Missing, Value::Missing],
        &[text("x"), Value::Int64(-3), Value::Int64(4)],
    ]));
    let sums: Vec<i128> = df.sumdf(Axis::Row).into_iter().map(|p| p.1).collect();
    assert_eq!(sums, vec![6, 0, 1]);
    let means: Vec<Option<Ratio>> = df.mean(Axis::Row).into_iter().map(|p| p.1).collect();
    assert_eq!(means, vec![Some(Ratio { num: 6, den: 2 }), None, Some(Ratio { num: 1, den: 2 })]);
    let maxs: Vec<Value> = df.maxdf(Axis::Row).into_iter().map(|p| p.1).collect();
    assert_eq!(maxs, vec![Value::Int32(5), Value::Missing, Value::Int64(4)]);
    let mins: Vec<Value> = df.min(Axis::Row).into_iter().map(|p| p.1).collect();
    assert_eq!(mins, vec![Value::Int64(1), Value::Missing, Value::Int64(-3)]);
    let col_sums: Vec<i128> = df.sumdf(Axis::Column).into_iter().map(|p| p.1).collect();
    assert_eq!(col_sums, vec![1, -3, 9]);
}

#[test]
fn extremes_keep_first_of_equals() {
    let df = DataFrame::new(cells(&[&[Value::Int32(7), Value::Int64(7), Value::Int64(2)]]));
    assert_eq!(df.maxdf(Axis::Row)[0].1, Value::Int32(7));
    assert_eq!(df.min(Axis::Row)[0].1, Value::Int64(2));
}

#[test]
fn sum_of_extreme_values_is_exact() {
    let df = DataFrame::new(cells(&[&[Value::Int64(i64::MAX), Value::Int64(i64::MAX)]]));
    assert_eq!(df.sumdf(Axis::Row)[0].1, 2 * (i64::MAX as i128));
    assert_eq!(df.mean(Axis::Row)[0].1, Some(Ratio { num: 2 * (i64::MAX as i128), den: 2 }));
}

#[test]
fn impute_mean_median_mode_constant() {
    let m = || {
        cells(&[
            &[Value::Int64(1), Value::Missing, Value::Int64(4), Value::Int64(4)],
            &[Value::Missing, Value::Missing, Value::Missing, Value::Missing],
            &[Value::Int64(-1), Value::Int64(-2), Value::Missing, Value::Int64(3)],
        ])
    };
    let mut df = DataFrame::new(m());
    df.impute(ImputeStrategy::Mean, Axis::Row);
    assert_eq!(
        df.data,
        cells(&[
            &[Value::Int64(1), Value::Int64(3), Value::Int64(4), Value::Int64(4)],
            &[Value::Missing, Value::Missing, Value::Missing, Value::Missing],
            &[Value::Int64(-1), Value::Int64(-2), Value::Int64(0), Value::Int64(3)],
        ])
    );
    let mut df = DataFrame::new(m());
    df.impute(ImputeStrategy::Median, Axis::Row);
    assert_eq!(df.cell(0, 1), &Value::Int64(4));
    assert_eq!(df.cell(2, 2), &Value::Int64(-1));
    let mut df = DataFrame::new(m());
    df.impute(ImputeStrategy::Mode, Axis::Row);
    assert_eq!(df.cell(0, 1), &Value::Int64(4));
    assert_eq!(df.cell(2, 2), &Value::Int64(-1));
    let mut df = DataFrame::new(m());
    df.impute(ImputeStrategy::Constant(Value::Int64(0)), Axis::Row);
    assert_eq!(df.cell(1, 3), &Value::Int64(0));
    assert_eq!(df.cell(0, 0), &Value::Int64(1));
}

#[test]
fn impute_negative_mean_rounds_down() {
    let mut df = DataFrame::new(cells(&[&[Value::Int64(-1)], &[Value::Int64(-2)], &[Value::Missing]]));
    df.impute(ImputeStrategy::Mean, Axis::Column);
    assert_eq!(df.cell(2, 0), &Value::Int64(-2));
}

#[test]
fn impute_twice_is_impute_once() {
    let m = || {
        cells(&[
            &[Value::Int64(1), Value::Missing, Value::Int64(6)],
            &[Value::Missing, Value::Int64(2), Value::Missing],
        ])
    };
    for axis in [Axis::Row, Axis::Column] {
        let mut once = DataFrame::new(m());
        once.impute(ImputeStrategy::Mean, axis);
        let mut twice = DataFrame::new(m());
        twice.impute(ImputeStrategy::Mean, axis);
        twice.impute(ImputeStrategy::Mean, axis);
        assert_eq!(once, twice);
    }
}

#[test]
fn mutable_frame_round_trip() {
    let mut df = DataFrame::new(grid(&[&[1, 2], &[3, 4]]));
    {
        let mut it = df.df_iter_mut(Axis::Column);
        assert_eq!(it.next(), Some(t("0")));
        assert_eq!(it.get(1), &Value::Int64(3));
        it.set(1, Value::Int64(30));
        assert_eq!(it.next(), Some(t("1")));
        assert_eq!(it.next(), None);
        let copy = it.into_frame().to_df().unwrap();
        assert_eq!(copy.data, grid(&[&[1, 2], &[30, 4]]));
    }
    assert_eq!(df.data, grid(&[&[1, 2], &[30, 4]]));
    let mut m = df.as_mutable();
    m.columns = labels(&["only"]);
    assert_eq!(m.to_df(), Err(FrameError::ColumnShapeMismatch { expected: 2, found: 1 }));
    let mut m = df.as_mutable();
    m.index = labels(&["only"]);
    assert_eq!(m.to_df(), Err(FrameError::IndexShapeMismatch { expected: 2, found: 1 }));
}

#[test]
fn map_applies_to_each_cell() {
    let df = DataFrame::new(cells(&[&[Value::Int64(1), Value::Missing], &[Value::Int32(3), text("a")]]));
    let out = df.map(|v: &Value| v.is_missing(), Axis::Column);
    assert_eq!(out, vec![(t("0"), vec![false, false]), (t("1"), vec![true, false])]);
}

#[test]
fn label_rendering() {
    assert_eq!(Label::Integer(-120).render(), "-120");
    assert_eq!(Label::Integer(i64::MIN).render(), i64::MIN.to_string());
    assert_eq!(int_to_text(0), "0");
    let ts = chrono::Utc.with_ymd_and_hms(2014, 7, 8, 9, 10, 11).unwrap().timestamp();
    assert_eq!(Label::Timestamp(ts).render(), "2014-07-08 09:10:11 UTC");
    assert_eq!(Label::Timestamp(ts).suffixed(), t("2014-07-08 09:10:11 UTC_x"));
    assert_eq!(Label::Timestamp(i64::MAX).render(), i64::MAX.to_string());
}

#[test]
fn matrix_rows_must_match_width() {
    assert!(Matrix::from_rows(vec![vec![Value::Int64(1)], vec![]], 1).is_none());
    assert!(Matrix::from_rows(vec![], 3).is_some());
    let df = DataFrame::new(Matrix::from_rows(vec![], 3).unwrap());
    assert_eq!(df.shape(), (0, 3));
}

#[test]
fn value_equality_across_widths() {
    assert!(Value::Int32(3).equals(&Value::Int64(3)));
    assert!(!Value::Missing.equals(&Value::Missing));
    assert!(!text("3").equals(&Value::Int64(3)));
    assert!(Value::Boolean(true).equals(&Value::Boolean(true)));
}
