//! Partition of a table's rows into a training part and a held-out test part.
//!
//! The rows are first put in a random order; the first `train_rows` rows of
//! that order form the training part and the rest the test part, where
//! `train_rows` is `ceil(n * (1 - test_fraction))`.

use vstd::prelude::*;
use crate::frame::Frame;
use rand::seq::SliceRandom;

verus! {

broadcast use vstd::seq_lib::group_to_multiset_ensures;

/// The share of rows held out for testing, as the ratio `num / den`.
#[derive(Debug, Clone, Copy, PartialEq, Eq)]
pub struct TestFraction {
    pub num: u64,
    pub den: u64,
}

impl TestFraction {
    /// Strictly between zero and one.
    pub open spec fn valid(self) -> bool {
        0 < self.num < self.den
    }

    /// Whether the ratio lies strictly between zero and one.
    pub fn is_valid(&self) -> (r: bool)
        ensures
            r == self.valid(),
    {
        0 < self.num && self.num < self.den
    }
}

/// Why rows could not be split.
#[derive(Debug, Clone, Copy, PartialEq, Eq)]
pub enum SplitError {
    /// The test fraction is not strictly between zero and one.
    InvalidFraction,
    /// The table has no rows.
    EmptyDataset,
}

/// `ceil(n * (den - num) / den)`: the number of training rows out of `n`.
pub open spec fn train_rows(n: nat, f: TestFraction) -> nat {
    ((n * (f.den - f.num) + f.den - 1) / (f.den as int)) as nat
}

/// The row numbers `0, 1, ..., n - 1` in order.
pub open spec fn all_rows(n: nat) -> Seq<usize> {
    Seq::new(n, |i: int| i as usize)
}

/// `order` lists every row number below `n` exactly once, in some order.
pub open spec fn is_row_order(order: Seq<usize>, n: nat) -> bool {
    order.to_multiset() == all_rows(n).to_multiset()
}

/// The training part of a row order.
pub open spec fn train_part(order: Seq<usize>, f: TestFraction) -> Seq<usize> {
    order.subrange(0, train_rows(order.len(), f) as int)
}

/// The test part of a row order.
pub open spec fn test_part(order: Seq<usize>, f: TestFraction) -> Seq<usize> {
    order.subrange(train_rows(order.len(), f) as int, order.len() as int)
}

/// The training part never has more rows than there are.
pub proof fn lemma_train_rows_bound(n: nat, f: TestFraction)
    requires
        f.valid(),
    ensures
        train_rows(n, f) <= n,
        n > 0 ==> train_rows(n, f) > 0,
{
    let a: int = f.den - f.num;
    let d: int = f.den as int;
    assert(0 < a < d);
    assert(n * a <= n * (d - 1)) by (nonlinear_arith)
        requires
            0 < a < d,
    ;
    assert(n * a + d - 1 < (n + 1) * d) by (nonlinear_arith)
        requires
            n * a <= n * (d - 1),
            0 < d,
    ;
    assert((n * a + d - 1) / d <= n) by (nonlinear_arith)
        requires
            n * a + d - 1 < (n + 1) * d,
            0 < d,
            n * a + d - 1 >= 0,
    ;
    if n > 0 {
        assert(n * a >= 1) by (nonlinear_arith)
            requires
                n > 0,
                a > 0,
        ;
        assert((n * a + d - 1) / d >= 1) by (nonlinear_arith)
            requires
                n * a + d - 1 >= d,
                0 < d,
        ;
    }
}

/// Each row number below `n` occurs once in `all_rows(n)`, and no other.
pub proof fn lemma_all_rows_count(n: nat, x: usize)
    requires
        n <= usize::MAX + 1,
    ensures
        all_rows(n).to_multiset().count(x) == (if (x as nat) < n { 1nat } else { 0nat }),
    decreases n,
{
    if n == 0 {
        assert(all_rows(0) =~= Seq::<usize>::empty());
    } else {
        let m: nat = (n - 1) as nat;
        lemma_all_rows_count(m, x);
        assert(all_rows(n) =~= all_rows(m).push(m as usize));
    }
}

/// A row order has `n` entries, each a row number below `n`.
pub proof fn lemma_row_order_bounds(order: Seq<usize>, n: nat)
    requires
        is_row_order(order, n),
        n <= usize::MAX + 1,
    ensures
        order.len() == n,
        forall|i: int| 0 <= i < order.len() ==> (#[trigger] order[i] as nat) < n,
{
    assert(all_rows(n).to_multiset().len() == n);
    assert forall|i: int| 0 <= i < order.len() implies (#[trigger] order[i] as nat) < n by {
        assert(order.contains(order[i]));
        lemma_all_rows_count(n, order[i]);
    }
}

/// Splitting a row order of `n > 0` rows at a valid test fraction gives two
/// parts that together hold every row number below `n` exactly once: no row is
/// in both, none is left out, their sizes add up to `n`, and the training part
/// has `ceil(n * (1 - test_fraction))` rows.
pub proof fn lemma_split_is_partition(order: Seq<usize>, n: nat, f: TestFraction)
    requires
        n > 0,
        n <= usize::MAX + 1,
        f.valid(),
        is_row_order(order, n),
    ensures
        train_part(order, f).len() + test_part(order, f).len() == n,
        train_part(order, f).len() == train_rows(n, f),
        train_part(order, f).to_multiset().add(test_part(order, f).to_multiset())
            == all_rows(n).to_multiset(),
        forall|x: usize|
            #![trigger train_part(order, f).contains(x)]
            #![trigger test_part(order, f).contains(x)]
            (train_part(order, f).contains(x) || test_part(order, f).contains(x)) <==> (x as nat)
                < n,
        forall|x: usize|
            #![trigger train_part(order, f).contains(x)]
            #![trigger test_part(order, f).contains(x)]
            !(train_part(order, f).contains(x) && test_part(order, f).contains(x)),
{
    lemma_row_order_bounds(order, n);
    lemma_train_rows_bound(n, f);
    let tr = train_part(order, f);
    let te = test_part(order, f);
    assert(order =~= tr + te);
    vstd::seq_lib::lemma_multiset_commutative(tr, te);
    assert forall|x: usize| (tr.contains(x) || te.contains(x)) <==> (x as nat) < n by {
        lemma_all_rows_count(n, x);
    }
    assert forall|x: usize| !(tr.contains(x) && te.contains(x)) by {
        lemma_all_rows_count(n, x);
    }
}

/// `ceil(n_rows * (1 - test_fraction))`, the size of the training part.
pub fn train_row_count(n_rows: usize, fraction: TestFraction) -> (r: usize)
    requires
        fraction.valid(),
    ensures
        r == train_rows(n_rows as nat, fraction),
{
    proof {
        lemma_train_rows_bound(n_rows as nat, fraction);
    }
    let a: u128 = (fraction.den - fraction.num) as u128;
    let d: u128 = fraction.den as u128;
    let n: u128 = n_rows as u128;
    assert(n * a < 0x1_0000_0000_0000_0000 * 0x1_0000_0000_0000_0000 - 0x2_0000_0000_0000_0000)
        by (nonlinear_arith)
        requires
            n < 0x1_0000_0000_0000_0000,
            a < 0x1_0000_0000_0000_0000 - 1,
    ;
    let c: u128 = (n * a + d - 1) / d;
    c as usize
}

/// Cuts a row order into its training part and its test part.
pub fn split_order(order: &Vec<usize>, fraction: TestFraction) -> (r: (Vec<usize>, Vec<usize>))
    requires
        fraction.valid(),
    ensures
        r.0@ == train_part(order@, fraction),
        r.1@ == test_part(order@, fraction),
{
    let cut: usize = train_row_count(order.len(), fraction);
    proof {
        lemma_train_rows_bound(order@.len(), fraction);
    }
    let mut train: Vec<usize> = Vec::new();
    let mut test: Vec<usize> = Vec::new();
    let mut i: usize = 0;
    while i < order.len()
        invariant
            cut <= order@.len(),
            i <= order@.len(),
            i <= cut ==> train@ == order@.subrange(0, i as int) && test@.len() == 0,
            i > cut ==> train@ == order@.subrange(0, cut as int) && test@ == order@.subrange(
                cut as int,
                i as int,
            ),
        decreases order@.len() - i,
    {
        if i < cut {
            train.push(order[i]);
            proof {
                assert(train@ =~= order@.subrange(0, i + 1));
            }
        } else {
            test.push(order[i]);
            proof {
                assert(test@ =~= order@.subrange(cut as int, i + 1));
            }
        }
        i = i + 1;
    }
    proof {
        assert(train@ =~= order@.subrange(0, cut as int));
        assert(test@ =~= order@.subrange(cut as int, order@.len() as int));
    }
    (train, test)
}

/// Relies on `rand::seq::SliceRandom::shuffle` with `rand::thread_rng`: the
/// slice is reordered by swaps only, so it keeps the same items.
#[verifier::external_body]
fn shuffle_in_place(v: &mut Vec<usize>)
    ensures
        final(v)@.to_multiset() == old(v)@.to_multiset(),
{
    v.shuffle(&mut rand::thread_rng());
}

/// The row numbers below `n_rows` in a random order.
pub fn shuffled_rows(n_rows: usize) -> (r: Vec<usize>)
    ensures
        is_row_order(r@, n_rows as nat),
        r@.len() == n_rows,
{
    let mut v: Vec<usize> = Vec::new();
    let mut i: usize = 0;
    while i < n_rows
        invariant
            i <= n_rows,
            v@ == all_rows(i as nat),
        decreases n_rows - i,
    {
        v.push(i);
        i = i + 1;
        proof {
            assert(v@ =~= all_rows(i as nat));
        }
    }
    shuffle_in_place(&mut v);
    proof {
        lemma_row_order_bounds(v@, n_rows as nat);
    }
    v
}

/// Splits `frame` by a given row order: the training part takes the rows at
/// the first `ceil(n * (1 - test_fraction))` positions of `order`, the test
/// part the rest, each in the order that `order` gives. `frame` is unchanged.
pub fn split_with_order<T: Copy>(frame: &Frame<T>, order: &Vec<usize>, fraction: TestFraction) -> (r:
    Result<(Frame<T>, Frame<T>), SplitError>)
    requires
        frame.wf(),
        is_row_order(order@, frame.height as nat),
    ensures
        !fraction.valid() <==> r == Err::<(Frame<T>, Frame<T>), SplitError>(SplitError::InvalidFraction),
        fraction.valid() && frame.height == 0 <==> r == Err::<(Frame<T>, Frame<T>), SplitError>(
            SplitError::EmptyDataset,
        ),
        r matches Ok((train, test)) ==> train.holds_rows_of(frame, train_part(order@, fraction))
            && test.holds_rows_of(frame, test_part(order@, fraction)),
{
    if !fraction.is_valid() {
        return Err(SplitError::InvalidFraction);
    }
    if frame.height() == 0 {
        return Err(SplitError::EmptyDataset);
    }
    proof {
        lemma_row_order_bounds(order@, frame.height as nat);
    }
    let (train_idx, test_idx) = split_order(order, fraction);
    proof {
        lemma_train_rows_bound(order@.len(), fraction);
        let cut = train_rows(order@.len(), fraction) as int;
        assert forall|i: int| 0 <= i < train_idx@.len() implies #[trigger] train_idx@[i]
            < frame.height by {
            assert(train_idx@[i] == order@[i]);
        }
        assert forall|i: int| 0 <= i < test_idx@.len() implies #[trigger] test_idx@[i]
            < frame.height by {
            assert(test_idx@[i] == order@[cut + i]);
        }
    }
    let train = frame.take_rows(&train_idx);
    let test = frame.take_rows(&test_idx);
    Ok((train, test))
}

/// Splits `frame` into a training part and a test part after putting its rows
/// in a random order, as `split_with_order` does for that order.
pub fn train_test_split<T: Copy>(frame: &Frame<T>, fraction: TestFraction) -> (r: Result<
    (Frame<T>, Frame<T>),
    SplitError,
>)
    requires
        frame.wf(),
    ensures
        !fraction.valid() <==> r == Err::<(Frame<T>, Frame<T>), SplitError>(SplitError::InvalidFraction),
        fraction.valid() && frame.height == 0 <==> r == Err::<(Frame<T>, Frame<T>), SplitError>(
            SplitError::EmptyDataset,
        ),
        r matches Ok((train, test)) ==> exists|order: Seq<usize>|
            #![trigger is_row_order(order, frame.height as nat)]
            is_row_order(order, frame.height as nat) && train.holds_rows_of(
                frame,
                train_part(order, fraction),
            ) && test.holds_rows_of(frame, test_part(order, fraction)),
{
    let order = shuffled_rows(frame.height());
    split_with_order(frame, &order, fraction)
}

} // verus!
