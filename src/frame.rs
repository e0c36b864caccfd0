//! An in-memory table: named columns of equal length, each cell possibly missing.

use vstd::prelude::*;

verus! {

/// True when `j` is the first position of `name` in `names`.
pub open spec fn first_match(names: Seq<Seq<char>>, name: Seq<char>, j: int) -> bool {
    &&& 0 <= j < names.len()
    &&& names[j] == name
    &&& forall|k: int| 0 <= k < j ==> names[k] != name
}

/// The first position of `name` in `names` (meaningful when `names` contains it).
pub open spec fn position_of(names: Seq<Seq<char>>, name: Seq<char>) -> int {
    choose|j: int| first_match(names, name, j)
}

/// A first position is the position.
pub proof fn lemma_first_match_is_position(names: Seq<Seq<char>>, name: Seq<char>, j: int)
    requires
        first_match(names, name, j),
    ensures
        position_of(names, name) == j,
{
    let p = position_of(names, name);
    assert(first_match(names, name, p));
    if p < j {
        assert(names[p] != name);
    } else if j < p {
        assert(names[j] != name);
    }
}

/// `wanted[k]` is the first entry of `wanted` that `names` lacks.
pub open spec fn first_missing(names: Seq<Seq<char>>, wanted: Seq<String>, k: int) -> bool {
    &&& 0 <= k < wanted.len()
    &&& !names.contains(wanted[k]@)
    &&& forall|m: int| 0 <= m < k ==> names.contains(#[trigger] wanted[m]@)
}

/// The character sequences of a list of strings.
pub open spec fn views_of(names: Seq<String>) -> Seq<Seq<char>> {
    names.map_values(|s: String| s@)
}

/// A cell-by-cell copy of a column.
fn copy_cells<T: Copy>(src: &Vec<Option<T>>) -> (r: Vec<Option<T>>)
    ensures
        r@ == src@,
{
    let mut r: Vec<Option<T>> = Vec::new();
    let mut i: usize = 0;
    while i < src.len()
        invariant
            i <= src@.len(),
            r@ == src@.subrange(0, i as int),
        decreases src@.len() - i,
    {
        r.push(src[i]);
        i = i + 1;
        proof {
            assert(r@ =~= src@.subrange(0, i as int));
        }
    }
    proof {
        assert(r@ =~= src@);
    }
    r
}

/// A table of `height` rows. Column `j` is called `names[j]` and holds
/// `columns[j]`, one optional cell per row (`None` is a missing value).
pub struct Frame<T> {
    pub names: Vec<String>,
    pub columns: Vec<Vec<Option<T>>>,
    pub height: usize,
}

/// Why a table could not be built or projected.
#[derive(Debug, PartialEq, Eq)]
pub enum FrameError {
    /// The number of names differs from the number of columns.
    ColumnCountMismatch { names: usize, columns: usize },
    /// The column at this position does not have `height` cells.
    RaggedColumn { column: usize },
    /// A requested column name is not in the table.
    UnknownColumn { name: String },
}

impl<T: Copy> Frame<T> {
    /// One name per column, and every column `height` cells long.
    pub open spec fn wf(&self) -> bool {
        &&& self.names@.len() == self.columns@.len()
        &&& forall|j: int| 0 <= j < self.columns@.len() ==> #[trigger] self.columns@[j]@.len() == self.height
    }

    pub open spec fn name_views(&self) -> Seq<Seq<char>> {
        views_of(self.names@)
    }

    /// The cell at row `i` of column `j`.
    pub open spec fn cell(&self, i: int, j: int) -> Option<T> {
        self.columns@[j]@[i]
    }

    /// `self` holds the rows `rows` of `src`, in that order, with `src`'s columns.
    pub open spec fn holds_rows_of(&self, src: &Frame<T>, rows: Seq<usize>) -> bool {
        &&& self.wf()
        &&& self.names@ == src.names@
        &&& self.height == rows.len()
        &&& forall|i: int, j: int|
            0 <= i < rows.len() && 0 <= j < src.columns@.len() ==> #[trigger] self.cell(i, j) == src.cell(
                rows[i] as int,
                j,
            )
    }

    /// `self` holds the columns of `src` named by `wanted`, in the order of `wanted`,
    /// with all of `src`'s rows.
    pub open spec fn holds_columns_of(&self, src: &Frame<T>, wanted: Seq<Seq<char>>) -> bool {
        &&& self.wf()
        &&& self.height == src.height
        &&& self.name_views() == wanted
        &&& forall|k: int|
            0 <= k < wanted.len() ==> #[trigger] self.columns@[k]@ == src.columns@[position_of(
                src.name_views(),
                wanted[k],
            )]@
    }

    /// Builds a table from its column names and cells.
    pub fn new(names: Vec<String>, columns: Vec<Vec<Option<T>>>, height: usize) -> (r: Result<
        Self,
        FrameError,
    >)
        ensures
            names@.len() != columns@.len() <==> r matches Err(FrameError::ColumnCountMismatch { .. }),
            r matches Err(FrameError::ColumnCountMismatch { names: a, columns: b }) ==> a == names@.len()
                && b == columns@.len(),
            r is Ok <==> (names@.len() == columns@.len() && forall|j: int|
                0 <= j < columns@.len() ==> #[trigger] columns@[j]@.len() == height),
            r matches Err(FrameError::RaggedColumn { column }) ==> names@.len() == columns@.len()
                && column < columns@.len() && columns@[column as int]@.len() != height
                && forall|j: int| 0 <= j < column ==> #[trigger] columns@[j]@.len() == height,
            r matches Ok(f) ==> f.names == names && f.columns == columns && f.height == height && f.wf(),
    {
        if names.len() != columns.len() {
            return Err(FrameError::ColumnCountMismatch { names: names.len(), columns: columns.len() });
        }
        let mut j: usize = 0;
        while j < columns.len()
            invariant
                j <= columns@.len(),
                names@.len() == columns@.len(),
                forall|k: int| 0 <= k < j ==> #[trigger] columns@[k]@.len() == height,
            decreases columns@.len() - j,
        {
            if columns[j].len() != height {
                return Err(FrameError::RaggedColumn { column: j });
            }
            j = j + 1;
        }
        Ok(Frame { names, columns, height })
    }

    /// The number of rows.
    pub fn height(&self) -> (r: usize)
        ensures
            r == self.height,
    {
        self.height
    }

    /// The number of columns.
    pub fn width(&self) -> (r: usize)
        ensures
            r == self.columns@.len(),
    {
        self.columns.len()
    }

    /// The position of the first column called `name`, if there is one.
    pub fn column_index(&self, name: &String) -> (r: Option<usize>)
        ensures
            r matches Some(j) ==> first_match(self.name_views(), name@, j as int),
            r is None <==> !self.name_views().contains(name@),
    {
        let mut j: usize = 0;
        while j < self.names.len()
            invariant
                j <= self.names@.len(),
                forall|k: int| 0 <= k < j ==> self.names@[k]@ != name@,
            decreases self.names@.len() - j,
        {
            if self.names[j] == *name {
                proof {
                    assert(self.name_views()[j as int] == name@);
                }
                return Some(j);
            }
            j = j + 1;
        }
        proof {
            if self.name_views().contains(name@) {
                let k = choose|k: int| 0 <= k < self.name_views().len() && self.name_views()[k] == name@;
                assert(self.names@[k]@ == name@);
            }
        }
        None
    }

    /// A new table with the rows at `rows` of `self`, in the order given.
    /// `self` is left as it is.
    pub fn take_rows(&self, rows: &Vec<usize>) -> (r: Frame<T>)
        requires
            self.wf(),
            forall|i: int| 0 <= i < rows@.len() ==> #[trigger] rows@[i] < self.height,
        ensures
            r.holds_rows_of(self, rows@),
    {
        let mut columns: Vec<Vec<Option<T>>> = Vec::new();
        let mut j: usize = 0;
        while j < self.columns.len()
            invariant
                self.wf(),
                j <= self.columns@.len(),
                columns@.len() == j,
                forall|i: int| 0 <= i < rows@.len() ==> #[trigger] rows@[i] < self.height,
                forall|c: int| 0 <= c < j ==> (#[trigger] columns@[c])@.len() == rows@.len(),
                forall|c: int, i: int|
                    0 <= c < j && 0 <= i < rows@.len() ==> #[trigger] columns@[c]@[i]
                        == self.columns@[c]@[rows@[i] as int],
            decreases self.columns@.len() - j,
        {
            let src: &Vec<Option<T>> = &self.columns[j];
            assert(src@.len() == self.height);
            let mut col: Vec<Option<T>> = Vec::new();
            let mut i: usize = 0;
            while i < rows.len()
                invariant
                    i <= rows@.len(),
                    col@.len() == i,
                    src@.len() == self.height,
                    forall|k: int| 0 <= k < rows@.len() ==> #[trigger] rows@[k] < self.height,
                    forall|k: int| 0 <= k < i ==> #[trigger] col@[k] == src@[rows@[k] as int],
                decreases rows@.len() - i,
            {
                let v: Option<T> = src[rows[i]];
                col.push(v);
                i = i + 1;
            }
            columns.push(col);
            j = j + 1;
        }
        Frame { names: self.names.clone(), columns, height: rows.len() }
    }

    /// A new table with the columns named by `wanted`, in the order of `wanted`
    /// (the first column of each name), and all rows. Fails, naming the first
    /// name of `wanted` that no column has, when there is one.
    pub fn select(&self, wanted: &Vec<String>) -> (r: Result<Frame<T>, FrameError>)
        requires
            self.wf(),
        ensures
            r is Ok <==> forall|k: int| 0 <= k < wanted@.len() ==> self.name_views().contains(
                #[trigger] wanted@[k]@,
            ),
            r matches Ok(f) ==> f.holds_columns_of(self, views_of(wanted@)),
            r matches Err(e) ==> exists|k: int|
                #[trigger] first_missing(self.name_views(), wanted@, k) && e == (FrameError::UnknownColumn {
                    name: wanted@[k],
                }),
    {
        let mut names: Vec<String> = Vec::new();
        let mut columns: Vec<Vec<Option<T>>> = Vec::new();
        let mut k: usize = 0;
        let ghost mut idx: Seq<int> = Seq::empty();
        while k < wanted.len()
            invariant
                self.wf(),
                idx.len() == k,
                k <= wanted@.len(),
                names@.len() == k,
                columns@.len() == k,
                forall|m: int| 0 <= m < k ==> self.name_views().contains(#[trigger] wanted@[m]@),
                forall|m: int| 0 <= m < k ==> #[trigger] names@[m] == wanted@[m],
                forall|m: int|
                    0 <= m < k ==> first_match(self.name_views(), wanted@[m]@, #[trigger] idx[m])
                        && columns@[m]@ == self.columns@[idx[m]]@,
            decreases wanted@.len() - k,
        {
            match self.column_index(&wanted[k]) {
                Some(j) => {
                    names.push(wanted[k].clone());
                    let col = copy_cells(&self.columns[j]);
                    columns.push(col);
                    proof {
                        assert(first_match(self.name_views(), wanted@[k as int]@, j as int));
                        assert(columns@[k as int]@ == self.columns@[j as int]@);
                        idx = idx.push(j as int);
                    }
                },
                None => {
                    proof {
                        assert(first_missing(self.name_views(), wanted@, k as int));
                    }
                    return Err(FrameError::UnknownColumn { name: wanted[k].clone() });
                },
            }
            k = k + 1;
        }
        let f = Frame { names, columns, height: self.height };
        proof {
            assert(f.name_views() =~= views_of(wanted@));
            assert forall|m: int| 0 <= m < f.columns@.len() implies #[trigger] f.columns@[m]@.len()
                == f.height by {
                assert(first_match(self.name_views(), wanted@[m]@, idx[m]));
                assert(self.columns@[idx[m]]@.len() == self.height);
            }
            assert forall|m: int| 0 <= m < views_of(wanted@).len() implies #[trigger] f.columns@[m]@
                == self.columns@[position_of(self.name_views(), views_of(wanted@)[m])]@ by {
                assert(views_of(wanted@)[m] == wanted@[m]@);
                lemma_first_match_is_position(self.name_views(), wanted@[m]@, idx[m]);
            }
            assert(f.holds_columns_of(self, views_of(wanted@)));
        }
        Ok(f)
    }
}

} // verus!
