//! What a boosted-tree trainer is handed: its settings, and the four dense
//! matrices whose shapes must agree before training may start.

use vstd::prelude::*;
use crate::frame::Frame;
use crate::matrix::{DenseMatrix, MatrixError, first_missing_cell, no_missing, to_dense_matrix};

verus! {

/// Settings of one training run.
#[derive(Debug, Clone, Copy, PartialEq, Eq)]
pub struct TrainingConfig {
    /// Number of boosting rounds.
    pub boost_rounds: u32,
    /// Largest depth of a tree.
    pub max_depth: u32,
    /// Learning rate, in thousandths.
    pub learning_rate_thousandths: u32,
}

impl TrainingConfig {
    /// Ten rounds of trees at most six deep, learning rate 0.3: the
    /// squared-error regression defaults.
    pub fn standard() -> (r: TrainingConfig)
        ensures
            r.boost_rounds == 10,
            r.max_depth == 6,
            r.learning_rate_thousandths == 300,
    {
        TrainingConfig { boost_rounds: 10, max_depth: 6, learning_rate_thousandths: 300 }
    }
}

/// Which shapes disagree.
#[derive(Debug, Clone, Copy, PartialEq, Eq)]
pub enum ShapeMismatch {
    /// The training features and labels have different row counts.
    TrainLabels { rows: usize, labels: usize },
    /// The test features and labels have different row counts.
    TestLabels { rows: usize, labels: usize },
    /// A label matrix does not have exactly one column.
    LabelWidth { columns: usize },
    /// The training and test features have different column counts.
    FeatureWidth { train: usize, test: usize },
}

/// Why training could not run or did not finish.
#[derive(Debug, Clone, Copy, PartialEq, Eq)]
pub enum TrainingError {
    /// The trainer would refuse these inputs.
    ConfigError { reason: ShapeMismatch },
    /// The trainer failed while it ran.
    TrainingFailure,
}

/// The first disagreement among the `(rows, columns)` shapes of the training
/// features and labels and the test features and labels, if any; `None`
/// when they are fit for training.
pub open spec fn shape_problem(
    x_train: (usize, usize),
    y_train: (usize, usize),
    x_test: (usize, usize),
    y_test: (usize, usize),
) -> Option<ShapeMismatch> {
    if y_train.0 != x_train.0 {
        Some(ShapeMismatch::TrainLabels { rows: x_train.0, labels: y_train.0 })
    } else if y_test.0 != x_test.0 {
        Some(ShapeMismatch::TestLabels { rows: x_test.0, labels: y_test.0 })
    } else if y_train.1 != 1 {
        Some(ShapeMismatch::LabelWidth { columns: y_train.1 })
    } else if y_test.1 != 1 {
        Some(ShapeMismatch::LabelWidth { columns: y_test.1 })
    } else if x_test.1 != x_train.1 {
        Some(ShapeMismatch::FeatureWidth { train: x_train.1, test: x_test.1 })
    } else {
        None
    }
}

/// The `(rows, columns)` shape of a matrix.
pub open spec fn dims<T>(m: &DenseMatrix<T>) -> (usize, usize) {
    (m.n_rows, m.n_cols)
}

/// Checks that each feature matrix has one label per row, that the labels
/// are a single column, and that both feature matrices have the same columns.
pub fn check_training_inputs<T>(
    x_train: &DenseMatrix<T>,
    y_train: &DenseMatrix<T>,
    x_test: &DenseMatrix<T>,
    y_test: &DenseMatrix<T>,
) -> (r: Result<(), TrainingError>)
    ensures
        r is Ok <==> shape_problem(dims(x_train), dims(y_train), dims(x_test), dims(y_test)) is None,
        r matches Err(e) ==> shape_problem(dims(x_train), dims(y_train), dims(x_test), dims(y_test)) == Some(
            #[trigger] e->reason,
        ) && e is ConfigError,
{
    if y_train.n_rows != x_train.n_rows {
        Err(
            TrainingError::ConfigError {
                reason: ShapeMismatch::TrainLabels { rows: x_train.n_rows, labels: y_train.n_rows },
            },
        )
    } else if y_test.n_rows != x_test.n_rows {
        Err(
            TrainingError::ConfigError {
                reason: ShapeMismatch::TestLabels { rows: x_test.n_rows, labels: y_test.n_rows },
            },
        )
    } else if y_train.n_cols != 1 {
        Err(TrainingError::ConfigError { reason: ShapeMismatch::LabelWidth { columns: y_train.n_cols } })
    } else if y_test.n_cols != 1 {
        Err(TrainingError::ConfigError { reason: ShapeMismatch::LabelWidth { columns: y_test.n_cols } })
    } else if x_test.n_cols != x_train.n_cols {
        Err(
            TrainingError::ConfigError {
                reason: ShapeMismatch::FeatureWidth { train: x_train.n_cols, test: x_test.n_cols },
            },
        )
    } else {
        Ok(())
    }
}

/// The `(rows, columns)` shape of a table.
pub open spec fn frame_dims<T>(f: &Frame<T>) -> (usize, usize) {
    (f.height, f.columns@.len() as usize)
}

/// The four dense matrices of one training run.
pub struct TrainingInputs<T> {
    pub x_train: DenseMatrix<T>,
    pub y_train: DenseMatrix<T>,
    pub x_test: DenseMatrix<T>,
    pub y_test: DenseMatrix<T>,
}

/// Why the training inputs could not be prepared.
#[derive(Debug, Clone, Copy, PartialEq, Eq)]
pub enum PrepareError {
    /// One of the tables could not be flattened.
    Matrix(MatrixError),
    /// The tables' shapes do not fit together.
    Training(TrainingError),
}

/// A table that can be flattened into a buffer of addressable size.
pub open spec fn flattenable<T: Copy>(f: &Frame<T>) -> bool {
    f.wf() && f.height * f.columns@.len() <= usize::MAX
}

/// Flattens the training and test features and labels, and checks that
/// their shapes fit together.
pub fn prepare_training_inputs<T: Copy>(
    x_train: &Frame<T>,
    y_train: &Frame<T>,
    x_test: &Frame<T>,
    y_test: &Frame<T>,
) -> (r: Result<TrainingInputs<T>, PrepareError>)
    requires
        flattenable(x_train),
        flattenable(y_train),
        flattenable(x_test),
        flattenable(y_test),
    ensures
        r matches Err(PrepareError::Matrix(_)) <==> !(no_missing(x_train) && no_missing(y_train)
            && no_missing(x_test) && no_missing(y_test)),
        r matches Err(PrepareError::Matrix(MatrixError::MissingValue { row, column })) ==> {
            ||| first_missing_cell(x_train, row, column)
            ||| no_missing(x_train) && first_missing_cell(y_train, row, column)
            ||| no_missing(x_train) && no_missing(y_train) && first_missing_cell(x_test, row, column)
            ||| no_missing(x_train) && no_missing(y_train) && no_missing(x_test) && first_missing_cell(
                y_test,
                row,
                column,
            )
        },
        r matches Err(PrepareError::Training(e)) ==> e == (TrainingError::ConfigError {
            reason: shape_problem(frame_dims(x_train), frame_dims(y_train), frame_dims(x_test), frame_dims(y_test))->0,
        }),
        r is Ok <==> no_missing(x_train) && no_missing(y_train) && no_missing(x_test) && no_missing(
            y_test,
        ) && shape_problem(frame_dims(x_train), frame_dims(y_train), frame_dims(x_test), frame_dims(y_test)) is None,
        r matches Ok(t) ==> t.x_train.flattens(x_train) && t.y_train.flattens(y_train)
            && t.x_test.flattens(x_test) && t.y_test.flattens(y_test),
{
    let xa = match to_dense_matrix(x_train) {
        Ok(m) => m,
        Err(e) => return Err(PrepareError::Matrix(e)),
    };
    let ya = match to_dense_matrix(y_train) {
        Ok(m) => m,
        Err(e) => return Err(PrepareError::Matrix(e)),
    };
    let xb = match to_dense_matrix(x_test) {
        Ok(m) => m,
        Err(e) => return Err(PrepareError::Matrix(e)),
    };
    let yb = match to_dense_matrix(y_test) {
        Ok(m) => m,
        Err(e) => return Err(PrepareError::Matrix(e)),
    };
    match check_training_inputs(&xa, &ya, &xb, &yb) {
        Ok(()) => Ok(TrainingInputs { x_train: xa, y_train: ya, x_test: xb, y_test: yb }),
        Err(e) => Err(PrepareError::Training(e)),
    }
}

} // verus!
