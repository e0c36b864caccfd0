use house_price_predictor::pipeline::{prepare_run, PipelineError};
use house_price_predictor::frame::{Frame, FrameError};
use house_price_predictor::matrix::{to_dense_matrix, MatrixError};
use house_price_predictor::schema::{split_features_and_targets, FeatureSchema, SchemaError};
use house_price_predictor::split::{
    shuffled_rows, split_order, split_with_order, train_row_count, train_test_split, SplitError,
    TestFraction,
};
use house_price_predictor::train::{
    check_training_inputs, prepare_training_inputs, PrepareError, ShapeMismatch, TrainingConfig,
    TrainingError,
};
use house_price_predictor::matrix::DenseMatrix;

fn names(ns: &[&str]) -> Vec<String> {
    ns.iter().map(|s| s.to_string()).collect()
}

/// A table whose column `j` holds `100 * j + i` at row `i`.
fn numbered(n_rows: usize, cols: &[&str]) -> Frame<f32> {
    let columns: Vec<Vec<Option<f32>>> = (0..cols.len())
        .map(|j| (0..n_rows).map(|i| Some((100 * j + i) as f32)).collect())
        .collect();
    Frame::new(names(cols), columns, n_rows).unwrap()
}

fn fifth() -> TestFraction {
    TestFraction { num: 1, den: 5 }
}

#[test]
fn new_rejects_name_count_mismatch() {
    let r = Frame::<f32>::new(names(&["a", "b"]), vec![vec![Some(1.0)]], 1);
    assert_eq!(r.err(), Some(FrameError::ColumnCountMismatch { names: 2, columns: 1 }));
}

#[test]
fn new_rejects_ragged_column() {
    let r = Frame::<f32>::new(
        names(&["a", "b", "c"]),
        vec![vec![Some(1.0), Some(2.0)], vec![Some(3.0)], vec![]],
        2,
    );
    assert_eq!(r.err(), Some(FrameError::RaggedColumn { column: 1 }));
}

#[test]
fn column_index_finds_first_match() {
    let f = numbered(2, &["a", "b", "a"]);
    assert_eq!(f.column_index(&"a".to_string()), Some(0));
    assert_eq!(f.column_index(&"b".to_string()), Some(1));
    assert_eq!(f.column_index(&"z".to_string()), None);
    assert_eq!(f.height(), 2);
    assert_eq!(f.width(), 3);
}

#[test]
fn take_rows_keeps_given_order() {
    let f = numbered(4, &["a", "b"]);
    let t = f.take_rows(&vec![3, 0, 3]);
    assert_eq!(t.height, 3);
    assert_eq!(t.names, names(&["a", "b"]));
    assert_eq!(t.columns[0], vec![Some(3.0), Some(0.0), Some(3.0)]);
    assert_eq!(t.columns[1], vec![Some(103.0), Some(100.0), Some(103.0)]);
    assert_eq!(f.height, 4);
}

#[test]
fn select_follows_requested_order() {
    let f = numbered(3, &["a", "b", "c"]);
    let s = f.select(&names(&["c", "a"])).unwrap();
    assert_eq!(s.names, names(&["c", "a"]));
    assert_eq!(s.height, 3);
    assert_eq!(s.columns[0], vec![Some(200.0), Some(201.0), Some(202.0)]);
    assert_eq!(s.columns[1], vec![Some(0.0), Some(1.0), Some(2.0)]);
}

#[test]
fn train_row_count_rounds_up() {
    assert_eq!(train_row_count(506, fifth()), 405);
    assert_eq!(train_row_count(10, fifth()), 8);
    assert_eq!(train_row_count(1, TestFraction { num: 1, den: 2 }), 1);
    assert_eq!(train_row_count(3, TestFraction { num: 1, den: 2 }), 2);
    assert_eq!(train_row_count(7, TestFraction { num: 2, den: 3 }), 3);
    assert_eq!(train_row_count(usize::MAX, TestFraction { num: 1, den: u64::MAX }), usize::MAX - 1);
    assert_eq!(train_row_count(usize::MAX, TestFraction { num: 1, den: 2 }), usize::MAX / 2 + 1);
}

#[test]
fn split_order_cuts_at_train_rows() {
    let (train, test) = split_order(&vec![4, 2, 0, 1, 3], fifth());
    assert_eq!(train, vec![4, 2, 0, 1]);
    assert_eq!(test, vec![3]);
}

#[test]
fn split_506_rows_at_a_fifth() {
    let f = numbered(506, &["a"]);
    let (train, test) = train_test_split(&f, fifth()).unwrap();
    assert_eq!(train.height, 405);
    assert_eq!(test.height, 101);
    let mut seen: Vec<u32> = train.columns[0]
        .iter()
        .chain(test.columns[0].iter())
        .map(|v| v.unwrap() as u32)
        .collect();
    seen.sort();
    assert_eq!(seen, (0..506).collect::<Vec<u32>>());
}

#[test]
fn split_with_order_is_exact() {
    let f = numbered(5, &["a", "b"]);
    let (train, test) = split_with_order(&f, &vec![2, 4, 0, 1, 3], fifth()).unwrap();
    assert_eq!(train.columns[0], vec![Some(2.0), Some(4.0), Some(0.0), Some(1.0)]);
    assert_eq!(test.columns[1], vec![Some(103.0)]);
    assert_eq!(train.names, names(&["a", "b"]));
}

#[test]
fn split_rejects_invalid_fraction() {
    let f = numbered(5, &["a"]);
    for fr in [
        TestFraction { num: 0, den: 5 },
        TestFraction { num: 5, den: 5 },
        TestFraction { num: 6, den: 5 },
        TestFraction { num: 0, den: 0 },
    ] {
        assert_eq!(train_test_split(&f, fr).err(), Some(SplitError::InvalidFraction));
    }
}

#[test]
fn split_rejects_empty_dataset() {
    let f = numbered(0, &["a"]);
    assert_eq!(train_test_split(&f, fifth()).err(), Some(SplitError::EmptyDataset));
}

#[test]
fn shuffled_rows_is_a_permutation() {
    let order = shuffled_rows(1000);
    let mut sorted = order.clone();
    sorted.sort();
    assert_eq!(sorted, (0..1000).collect::<Vec<usize>>());
    assert_ne!(order, sorted);
}

#[test]
fn separate_projects_schema_columns() {
    let f = numbered(4, &["x", "medv", "y"]);
    let schema = FeatureSchema { features: names(&["y", "x"]), targets: names(&["medv"]) };
    let (x, y) = split_features_and_targets(&f, &schema).unwrap();
    assert_eq!(x.names, names(&["y", "x"]));
    assert_eq!(x.height, 4);
    assert_eq!(y.height, 4);
    assert_eq!(x.columns[0], f.columns[2]);
    assert_eq!(y.columns[0], f.columns[1]);
}

#[test]
fn separate_names_unknown_column() {
    let f = numbered(4, &["x", "medv"]);
    let schema = FeatureSchema { features: names(&["x", "zz", "yy"]), targets: names(&["medv"]) };
    assert_eq!(
        split_features_and_targets(&f, &schema).err(),
        Some(FrameError::UnknownColumn { name: "zz".to_string() })
    );
    let schema = FeatureSchema { features: names(&["x"]), targets: names(&["price"]) };
    assert_eq!(
        split_features_and_targets(&f, &schema).err(),
        Some(FrameError::UnknownColumn { name: "price".to_string() })
    );
}

#[test]
fn boston_schema_names() {
    let s = FeatureSchema::boston();
    assert_eq!(s.features.len(), 13);
    assert_eq!(s.features[0], "crim");
    assert_eq!(s.features[12], "lstat");
    assert_eq!(s.targets, names(&["medv"]));
}

#[test]
fn dense_matrix_is_row_major() {
    let f = Frame::new(
        names(&["a", "b", "c"]),
        vec![
            vec![Some(1.0f32), Some(4.0)],
            vec![Some(2.0), Some(5.0)],
            vec![Some(3.0), Some(6.0)],
        ],
        2,
    )
    .unwrap();
    let m = to_dense_matrix(&f).unwrap();
    assert_eq!(m.n_rows, 2);
    assert_eq!(m.n_cols, 3);
    assert_eq!(m.data, vec![1.0, 2.0, 3.0, 4.0, 5.0, 6.0]);
}

#[test]
fn dense_matrix_of_integer_cells() {
    let f = Frame::new(names(&["n", "m"]), vec![vec![Some(7i64), Some(1)], vec![Some(-2), Some(9)]], 2)
        .unwrap();
    let m = to_dense_matrix(&f).unwrap();
    assert_eq!(m.data, vec![7, -2, 1, 9]);
}

#[test]
fn dense_matrix_rejects_missing_value() {
    let f = Frame::new(
        names(&["a", "b"]),
        vec![vec![Some(1.0f32), None], vec![Some(2.0), None]],
        2,
    )
    .unwrap();
    assert_eq!(to_dense_matrix(&f).err(), Some(MatrixError::MissingValue { row: 1, column: 0 }));
}

fn zeros(n_rows: usize, n_cols: usize) -> DenseMatrix<f32> {
    DenseMatrix { data: vec![0.0; n_rows * n_cols], n_rows, n_cols }
}

#[test]
fn training_rejects_label_count_mismatch() {
    let r = check_training_inputs(&zeros(100, 13), &zeros(99, 1), &zeros(10, 13), &zeros(10, 1));
    assert_eq!(
        r,
        Err(TrainingError::ConfigError {
            reason: ShapeMismatch::TrainLabels { rows: 100, labels: 99 }
        })
    );
}

#[test]
fn training_rejects_other_shape_mismatches() {
    assert_eq!(
        check_training_inputs(&zeros(4, 2), &zeros(4, 1), &zeros(3, 2), &zeros(2, 1)),
        Err(TrainingError::ConfigError { reason: ShapeMismatch::TestLabels { rows: 3, labels: 2 } })
    );
    assert_eq!(
        check_training_inputs(&zeros(4, 2), &zeros(4, 2), &zeros(3, 2), &zeros(3, 1)),
        Err(TrainingError::ConfigError { reason: ShapeMismatch::LabelWidth { columns: 2 } })
    );
    assert_eq!(
        check_training_inputs(&zeros(4, 2), &zeros(4, 1), &zeros(3, 5), &zeros(3, 1)),
        Err(TrainingError::ConfigError { reason: ShapeMismatch::FeatureWidth { train: 2, test: 5 } })
    );
    assert_eq!(check_training_inputs(&zeros(4, 2), &zeros(4, 1), &zeros(3, 2), &zeros(3, 1)), Ok(()));
}

#[test]
fn prepare_flattens_all_four() {
    let f = numbered(5, &["x", "medv"]);
    let schema = FeatureSchema { features: names(&["x"]), targets: names(&["medv"]) };
    let (train, test) = split_with_order(&f, &vec![4, 3, 2, 1, 0], fifth()).unwrap();
    let (xa, ya) = split_features_and_targets(&train, &schema).unwrap();
    let (xb, yb) = split_features_and_targets(&test, &schema).unwrap();
    let t = prepare_training_inputs(&xa, &ya, &xb, &yb).unwrap();
    assert_eq!(t.x_train.data, vec![4.0, 3.0, 2.0, 1.0]);
    assert_eq!(t.y_train.data, vec![104.0, 103.0, 102.0, 101.0]);
    assert_eq!(t.x_test.data, vec![0.0]);
    assert_eq!(t.y_test.data, vec![100.0]);
}

#[test]
fn prepare_reports_errors() {
    let x = numbered(3, &["x"]);
    let y = numbered(2, &["medv"]);
    let r = prepare_training_inputs(&x, &y, &x, &numbered(3, &["medv"]));
    assert_eq!(
        r.err(),
        Some(PrepareError::Training(TrainingError::ConfigError {
            reason: ShapeMismatch::TrainLabels { rows: 3, labels: 2 }
        }))
    );
    let holed = Frame::new(names(&["medv"]), vec![vec![Some(1.0f32), None, Some(2.0)]], 3).unwrap();
    let r = prepare_training_inputs(&x, &holed, &x, &holed);
    assert_eq!(r.err(), Some(PrepareError::Matrix(MatrixError::MissingValue { row: 1, column: 0 })));
}

#[test]
fn standard_config_values() {
    let c = TrainingConfig::standard();
    assert_eq!((c.boost_rounds, c.max_depth, c.learning_rate_thousandths), (10, 6, 300));
}

#[test]
fn prepare_run_gathers_split_columns() {
    let f = numbered(5, &["medv", "x", "y"]);
    let schema = FeatureSchema { features: names(&["y", "x"]), targets: names(&["medv"]) };
    let t = prepare_run(&f, &vec![1, 3, 0, 4, 2], fifth(), &schema).unwrap();
    assert_eq!((t.x_train.n_rows, t.x_train.n_cols), (4, 2));
    assert_eq!(t.x_train.data, vec![201.0, 101.0, 203.0, 103.0, 200.0, 100.0, 204.0, 104.0]);
    assert_eq!(t.y_train.data, vec![1.0, 3.0, 0.0, 4.0]);
    assert_eq!(t.x_test.data, vec![202.0, 102.0]);
    assert_eq!(t.y_test.data, vec![2.0]);

    let bad = FeatureSchema { features: names(&["x", "q"]), targets: names(&["medv"]) };
    assert_eq!(
        prepare_run(&f, &vec![1, 3, 0, 4, 2], fifth(), &bad).err(),
        Some(PipelineError::Schema(FrameError::UnknownColumn { name: "q".to_string() }))
    );
    assert_eq!(
        prepare_run(&f, &vec![1, 3, 0, 4, 2], TestFraction { num: 3, den: 2 }, &schema).err(),
        Some(PipelineError::Split(SplitError::InvalidFraction))
    );
    let two_labels = FeatureSchema { features: names(&["x"]), targets: names(&["medv", "y"]) };
    assert_eq!(
        prepare_run(&f, &vec![1, 3, 0, 4, 2], fifth(), &two_labels).err(),
        Some(PipelineError::Prepare(PrepareError::Training(TrainingError::ConfigError {
            reason: ShapeMismatch::LabelWidth { columns: 2 }
        })))
    );
}

#[test]
fn schema_new_checks_invariant() {
    let ok = FeatureSchema::new(names(&["a", "b"]), names(&["y"])).unwrap();
    assert_eq!(ok.features, names(&["a", "b"]));
    assert_eq!(ok.targets, names(&["y"]));
    assert_eq!(
        FeatureSchema::new(names(&["a"]), names(&["y", "z"])).err(),
        Some(SchemaError::TargetCount { count: 2 })
    );
    assert_eq!(
        FeatureSchema::new(names(&["a"]), vec![]).err(),
        Some(SchemaError::TargetCount { count: 0 })
    );
    assert_eq!(
        FeatureSchema::new(names(&["a", "y"]), names(&["y"])).err(),
        Some(SchemaError::SharedName { name: "y".to_string() })
    );
    let b = FeatureSchema::boston();
    assert!(FeatureSchema::new(b.features, b.targets).is_ok());
}

#[test]
fn prepare_reports_which_table_is_missing_a_cell() {
    let full = numbered(3, &["x"]);
    let holed = Frame::new(names(&["x", "z"]), vec![vec![Some(1.0f32), Some(2.0), Some(3.0)], vec![Some(1.0), Some(2.0), None]], 3).unwrap();
    let label = numbered(3, &["medv"]);
    let r = prepare_training_inputs(&full, &label, &holed, &label);
    assert_eq!(r.err(), Some(PrepareError::Matrix(MatrixError::MissingValue { row: 2, column: 1 })));
}

#[test]
fn prepare_run_rejects_missing_schema_cell() {
    let f = Frame::new(
        names(&["x", "medv", "unused"]),
        vec![
            vec![Some(1.0f32), Some(2.0), Some(3.0)],
            vec![Some(1.0), None, Some(3.0)],
            vec![None, None, None],
        ],
        3,
    )
    .unwrap();
    let schema = FeatureSchema { features: names(&["x"]), targets: names(&["medv"]) };
    let r = prepare_run(&f, &vec![2, 1, 0], TestFraction { num: 1, den: 3 }, &schema);
    assert!(matches!(r, Err(PipelineError::Prepare(PrepareError::Matrix(_)))));
    let only_x = FeatureSchema { features: names(&["x"]), targets: names(&["x"]) };
    assert!(prepare_run(&f, &vec![2, 1, 0], TestFraction { num: 1, den: 3 }, &only_x).is_ok());
}
