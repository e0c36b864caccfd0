//! The data side of one training run: split the rows, project each part onto
//! the schema, and flatten the four projections into training inputs.

use vstd::prelude::*;
use crate::frame::{Frame, FrameError, first_missing, position_of, views_of};
use crate::matrix::{DenseMatrix, no_missing};
use crate::schema::{FeatureSchema, split_features_and_targets};
use crate::split::{SplitError, TestFraction, is_row_order, split_with_order, train_part, test_part};
use crate::train::{ShapeMismatch, TrainingError};
use crate::train::{PrepareError, TrainingInputs, flattenable, prepare_training_inputs};

verus! {

/// Why the training inputs of a run could not be prepared.
#[derive(Debug, PartialEq, Eq)]
pub enum PipelineError {
    /// The rows could not be split.
    Split(SplitError),
    /// The table lacks a column of the schema.
    Schema(FrameError),
    /// A projection has a missing cell, or the shapes do not fit together.
    Prepare(PrepareError),
}

/// `m` holds, at row `i` and column `k`, the cell of `frame` at row `rows[i]`
/// in the column named `wanted[k]`.
pub open spec fn gathers<T: Copy>(
    m: &DenseMatrix<T>,
    frame: &Frame<T>,
    rows: Seq<usize>,
    wanted: Seq<String>,
) -> bool {
    &&& m.wf()
    &&& m.n_rows == rows.len()
    &&& m.n_cols == wanted.len()
    &&& forall|i: int, k: int|
        0 <= i < rows.len() && 0 <= k < wanted.len() ==> frame.cell(
            rows[i] as int,
            position_of(frame.name_views(), wanted[k]@),
        ) == Some(#[trigger] m.at(i, k))
}

/// Every name of `wanted` is a column of `frame`.
pub open spec fn has_columns<T: Copy>(frame: &Frame<T>, wanted: Seq<String>) -> bool {
    forall|k: int| 0 <= k < wanted.len() ==> frame.name_views().contains(#[trigger] wanted[k]@)
}

/// Every cell of `frame` in a column named by `wanted` is present.
pub open spec fn cells_present<T: Copy>(frame: &Frame<T>, wanted: Seq<String>) -> bool {
    forall|i: int, k: int|
        0 <= i < frame.height && 0 <= k < wanted.len() ==> (#[trigger] frame.cell(
            i,
            position_of(frame.name_views(), wanted[k]@),
        )) is Some
}

/// A name that `frame` has is at a valid column position.
proof fn lemma_position_in_range<T: Copy>(frame: &Frame<T>, name: Seq<char>)
    requires
        frame.wf(),
        frame.name_views().contains(name),
    ensures
        0 <= position_of(frame.name_views(), name) < frame.columns@.len(),
        crate::frame::first_match(frame.name_views(), name, position_of(frame.name_views(), name)),
{
    let q = choose|q: int| 0 <= q < frame.name_views().len() && frame.name_views()[q] == name;
    first_position_exists(frame.name_views(), name, q);
}

/// The cells of a projection of some rows are the matching cells of `frame`.
proof fn lemma_projected_cells<T: Copy>(
    frame: &Frame<T>,
    rows: Seq<usize>,
    part: &Frame<T>,
    proj: &Frame<T>,
    wanted: Seq<String>,
)
    requires
        frame.wf(),
        part.holds_rows_of(frame, rows),
        proj.holds_columns_of(part, views_of(wanted)),
        has_columns(frame, wanted),
    ensures
        proj.height == rows.len(),
        proj.columns@.len() == wanted.len(),
        forall|i: int, k: int|
            0 <= i < rows.len() && 0 <= k < wanted.len() ==> #[trigger] proj.cell(i, k) == frame.cell(
                rows[i] as int,
                position_of(frame.name_views(), wanted[k]@),
            ),
{
    assert(part.name_views() == frame.name_views());
    assert(proj.name_views().len() == proj.names@.len());
    assert(views_of(wanted).len() == wanted.len());
    assert forall|i: int, k: int| 0 <= i < rows.len() && 0 <= k < wanted.len() implies #[trigger] proj.cell(
        i,
        k,
    ) == frame.cell(rows[i] as int, position_of(frame.name_views(), wanted[k]@)) by {
        assert(views_of(wanted)[k] == wanted[k]@);
        lemma_position_in_range(frame, wanted[k]@);
        let p = position_of(frame.name_views(), wanted[k]@);
        assert(proj.columns@[k]@ == part.columns@[p]@);
        assert(part.cell(i, p) == frame.cell(rows[i] as int, p));
    }
}

/// The two parts of a split, projected onto `wanted`, have no missing cell
/// exactly when `frame` has none in those columns.
proof fn lemma_parts_present<T: Copy>(
    frame: &Frame<T>,
    order: Seq<usize>,
    f: TestFraction,
    wanted: Seq<String>,
    a: &Frame<T>,
    b: &Frame<T>,
)
    requires
        frame.wf(),
        frame.height > 0,
        f.valid(),
        is_row_order(order, frame.height as nat),
        a.height == train_part(order, f).len(),
        b.height == test_part(order, f).len(),
        a.columns@.len() == wanted.len(),
        b.columns@.len() == wanted.len(),
        forall|i: int, k: int|
            0 <= i < train_part(order, f).len() && 0 <= k < wanted.len() ==> #[trigger] a.cell(i, k)
                == frame.cell(train_part(order, f)[i] as int, position_of(frame.name_views(), wanted[k]@)),
        forall|i: int, k: int|
            0 <= i < test_part(order, f).len() && 0 <= k < wanted.len() ==> #[trigger] b.cell(i, k)
                == frame.cell(test_part(order, f)[i] as int, position_of(frame.name_views(), wanted[k]@)),
    ensures
        (no_missing(a) && no_missing(b)) <==> cells_present(frame, wanted),
{
    let n = frame.height as nat;
    crate::split::lemma_split_is_partition(order, n, f);
    crate::split::lemma_row_order_bounds(order, n);
    crate::split::lemma_train_rows_bound(n, f);
    let tr = train_part(order, f);
    let te = test_part(order, f);
    let cut = crate::split::train_rows(n, f) as int;
    if no_missing(a) && no_missing(b) {
        assert forall|i: int, k: int| 0 <= i < frame.height && 0 <= k < wanted.len() implies (#[trigger] frame.cell(
            i,
            position_of(frame.name_views(), wanted[k]@),
        )) is Some by {
            let x = i as usize;
            assert(tr.contains(x) || te.contains(x));
            if tr.contains(x) {
                let j = choose|j: int| 0 <= j < tr.len() && tr[j] == x;
                assert(a.cell(j, k) is Some);
            } else {
                let j = choose|j: int| 0 <= j < te.len() && te[j] == x;
                assert(b.cell(j, k) is Some);
            }
        }
    }
    if cells_present(frame, wanted) {
        assert forall|i: int, k: int| 0 <= i < a.height && 0 <= k < a.columns@.len() implies (#[trigger] a.cell(
            i,
            k,
        )) is Some by {
            assert(tr[i] == order[i]);
            assert(a.cell(i, k) == frame.cell(tr[i] as int, position_of(frame.name_views(), wanted[k]@)));
        }
        assert forall|i: int, k: int| 0 <= i < b.height && 0 <= k < b.columns@.len() implies (#[trigger] b.cell(
            i,
            k,
        )) is Some by {
            assert(te[i] == order[cut + i]);
            assert(b.cell(i, k) == frame.cell(te[i] as int, position_of(frame.name_views(), wanted[k]@)));
        }
    }
}

/// Present cells in the columns of `f + t` are present cells in those of `f`
/// and of `t`.
proof fn lemma_concat_present<T: Copy>(frame: &Frame<T>, f: Seq<String>, t: Seq<String>)
    ensures
        cells_present(frame, f + t) <==> cells_present(frame, f) && cells_present(frame, t),
{
    let all = f + t;
    if cells_present(frame, all) {
        assert forall|i: int, k: int| 0 <= i < frame.height && 0 <= k < f.len() implies (#[trigger] frame.cell(
            i,
            position_of(frame.name_views(), f[k]@),
        )) is Some by {
            assert(all[k] == f[k]);
        }
        assert forall|i: int, k: int| 0 <= i < frame.height && 0 <= k < t.len() implies (#[trigger] frame.cell(
            i,
            position_of(frame.name_views(), t[k]@),
        )) is Some by {
            assert(all[f.len() + k] == t[k]);
        }
    }
    if cells_present(frame, f) && cells_present(frame, t) {
        assert forall|i: int, k: int| 0 <= i < frame.height && 0 <= k < all.len() implies (#[trigger] frame.cell(
            i,
            position_of(frame.name_views(), all[k]@),
        )) is Some by {
            if k < f.len() {
                assert(all[k] == f[k]);
            } else {
                assert(all[k] == t[k - f.len()]);
            }
        }
    }
}

proof fn lemma_gathers<T: Copy>(
    frame: &Frame<T>,
    rows: Seq<usize>,
    part: &Frame<T>,
    proj: &Frame<T>,
    wanted: Seq<String>,
    m: &DenseMatrix<T>,
)
    requires
        frame.wf(),
        part.holds_rows_of(frame, rows),
        proj.holds_columns_of(part, views_of(wanted)),
        has_columns(frame, wanted),
        m.flattens(proj),
    ensures
        gathers(m, frame, rows, wanted),
{
    lemma_projected_cells(frame, rows, part, proj, wanted);
    assert forall|i: int, k: int| 0 <= i < rows.len() && 0 <= k < wanted.len() implies frame.cell(
        rows[i] as int,
        position_of(frame.name_views(), wanted[k]@),
    ) == Some(#[trigger] m.at(i, k)) by {
        assert(proj.cell(i, k) == Some(m.at(i, k)));
    }
}

/// A name that occurs has a first position.
proof fn first_position_exists(names: Seq<Seq<char>>, name: Seq<char>, q: int)
    requires
        0 <= q < names.len(),
        names[q] == name,
    ensures
        exists|j: int| crate::frame::first_match(names, name, j),
    decreases q,
{
    if exists|k: int| 0 <= k < q && names[k] == name {
        let k = choose|k: int| 0 <= k < q && names[k] == name;
        first_position_exists(names, name, k);
    } else {
        assert(crate::frame::first_match(names, name, q));
    }
}

/// Splits `frame` by `order`, projects both parts onto `schema` and flattens
/// the projections: the training features and labels come from the rows at the
/// first `ceil(n * (1 - test_fraction))` positions of `order`, the test ones
/// from the rest.
pub fn prepare_run<T: Copy>(
    frame: &Frame<T>,
    order: &Vec<usize>,
    fraction: TestFraction,
    schema: &FeatureSchema,
) -> (r: Result<TrainingInputs<T>, PipelineError>)
    requires
        frame.wf(),
        is_row_order(order@, frame.height as nat),
        frame.height * schema.features@.len() <= usize::MAX,
        frame.height * schema.targets@.len() <= usize::MAX,
    ensures
        !fraction.valid() <==> r == Err::<TrainingInputs<T>, PipelineError>(
            PipelineError::Split(SplitError::InvalidFraction),
        ),
        fraction.valid() && frame.height == 0 <==> r == Err::<TrainingInputs<T>, PipelineError>(
            PipelineError::Split(SplitError::EmptyDataset),
        ),
        (r matches Err(PipelineError::Schema(_))) <==> fraction.valid() && frame.height > 0
            && !has_columns(frame, schema.features@ + schema.targets@),
        r matches Err(PipelineError::Schema(e)) ==> exists|k: int|
            #[trigger] first_missing(frame.name_views(), schema.features@ + schema.targets@, k) && e
                == (FrameError::UnknownColumn { name: (schema.features@ + schema.targets@)[k] }),
        r is Ok <==> fraction.valid() && frame.height > 0 && has_columns(
            frame,
            schema.features@ + schema.targets@,
        ) && cells_present(frame, schema.features@ + schema.targets@) && schema.targets@.len() == 1,
        (r matches Err(PipelineError::Prepare(PrepareError::Matrix(_)))) <==> fraction.valid()
            && frame.height > 0 && has_columns(frame, schema.features@ + schema.targets@)
            && !cells_present(frame, schema.features@ + schema.targets@),
        (r matches Err(PipelineError::Prepare(PrepareError::Training(_)))) <==> fraction.valid()
            && frame.height > 0 && has_columns(frame, schema.features@ + schema.targets@)
            && cells_present(frame, schema.features@ + schema.targets@) && schema.targets@.len() != 1,
        r matches Err(PipelineError::Prepare(PrepareError::Training(e))) ==> e
            == (TrainingError::ConfigError {
            reason: ShapeMismatch::LabelWidth { columns: schema.targets@.len() as usize },
        }),
        r matches Ok(t) ==> {
            &&& gathers(&t.x_train, frame, train_part(order@, fraction), schema.features@)
            &&& gathers(&t.y_train, frame, train_part(order@, fraction), schema.targets@)
            &&& gathers(&t.x_test, frame, test_part(order@, fraction), schema.features@)
            &&& gathers(&t.y_test, frame, test_part(order@, fraction), schema.targets@)
        },
{
    let (train, test) = match split_with_order(frame, order, fraction) {
        Ok(parts) => parts,
        Err(e) => return Err(PipelineError::Split(e)),
    };
    proof {
        crate::split::lemma_train_rows_bound(order@.len(), fraction);
        crate::split::lemma_row_order_bounds(order@, frame.height as nat);
    }
    let (x_train, y_train) = match split_features_and_targets(&train, schema) {
        Ok(p) => p,
        Err(e) => {
            assert(train.name_views() == frame.name_views());
            return Err(PipelineError::Schema(e));
        },
    };
    let (x_test, y_test) = match split_features_and_targets(&test, schema) {
        Ok(p) => p,
        Err(e) => {
            assert(test.name_views() == frame.name_views());
            return Err(PipelineError::Schema(e));
        },
    };
    proof {
        assert(train.name_views() == frame.name_views());
        let all = schema.features@ + schema.targets@;
        assert forall|k: int| 0 <= k < schema.features@.len() implies frame.name_views().contains(
            #[trigger] schema.features@[k]@,
        ) by {
            assert(all[k] == schema.features@[k]);
        }
        assert forall|k: int| 0 <= k < schema.targets@.len() implies frame.name_views().contains(
            #[trigger] schema.targets@[k]@,
        ) by {
            assert(all[schema.features@.len() + k] == schema.targets@[k]);
        }
        assert(x_train.height <= frame.height);
        assert(x_train.height * schema.features@.len() <= frame.height * schema.features@.len()) by (nonlinear_arith)
            requires x_train.height <= frame.height;
        assert(x_test.height * schema.features@.len() <= frame.height * schema.features@.len()) by (nonlinear_arith)
            requires x_test.height <= frame.height;
        assert(y_train.height * schema.targets@.len() <= frame.height * schema.targets@.len()) by (nonlinear_arith)
            requires y_train.height <= frame.height;
        assert(y_test.height * schema.targets@.len() <= frame.height * schema.targets@.len()) by (nonlinear_arith)
            requires y_test.height <= frame.height;
        assert(x_train.name_views().len() == x_train.names@.len());
        assert(y_train.name_views().len() == y_train.names@.len());
        assert(x_test.name_views().len() == x_test.names@.len());
        assert(y_test.name_views().len() == y_test.names@.len());
        assert(views_of(schema.features@).len() == schema.features@.len());
        assert(views_of(schema.targets@).len() == schema.targets@.len());
        assert(x_train.columns@.len() == schema.features@.len());
        assert(y_train.columns@.len() == schema.targets@.len());
        assert(x_test.columns@.len() == schema.features@.len());
        assert(y_test.columns@.len() == schema.targets@.len());
        assert(flattenable(&x_train));
        assert(flattenable(&y_train));
        assert(flattenable(&x_test));
        assert(flattenable(&y_test));
    }
    proof {
        let tr = train_part(order@, fraction);
        let te = test_part(order@, fraction);
        lemma_projected_cells(frame, tr, &train, &x_train, schema.features@);
        lemma_projected_cells(frame, tr, &train, &y_train, schema.targets@);
        lemma_projected_cells(frame, te, &test, &x_test, schema.features@);
        lemma_projected_cells(frame, te, &test, &y_test, schema.targets@);
        lemma_parts_present(frame, order@, fraction, schema.features@, &x_train, &x_test);
        lemma_parts_present(frame, order@, fraction, schema.targets@, &y_train, &y_test);
        lemma_concat_present(frame, schema.features@, schema.targets@);
        assert(has_columns(frame, schema.features@ + schema.targets@));
    }
    let t = match prepare_training_inputs(&x_train, &y_train, &x_test, &y_test) {
        Ok(t) => t,
        Err(e) => return Err(PipelineError::Prepare(e)),
    };
    proof {
        lemma_gathers(frame, train_part(order@, fraction), &train, &x_train, schema.features@, &t.x_train);
        lemma_gathers(frame, train_part(order@, fraction), &train, &y_train, schema.targets@, &t.y_train);
        lemma_gathers(frame, test_part(order@, fraction), &test, &x_test, schema.features@, &t.x_test);
        lemma_gathers(frame, test_part(order@, fraction), &test, &y_test, schema.targets@, &t.y_test);
    }
    Ok(t)
}

} // verus!
