//! Recovering a whole column of the matrix from the cells of it that survive.

use crate::domain::{
    check_power_of_two, domain_points, domain_supported, is_power_of_two,
    lemma_domain_points_bounded, EvaluationDomain,
};
use crate::field::{le_value, modulus, values, Scalar};
use crate::interpolate::{
    has_zero_denominator, interpolate, interpolation, known_points, known_values, lagrange,
    lemma_reconstruction_on_polynomial, reconstruction, sample_values, too_few_known,
};
use vstd::prelude::*;

verus! {

/// One coordinate of a block's matrix with its payload: the 32-byte encoding of
/// the field element that stands there.
#[derive(Debug)]
pub struct Cell {
    pub block: u64,
    pub row: u16,
    pub col: u16,
    pub proof: Vec<u8>,
}

impl Clone for Cell {
    fn clone(&self) -> (r: Self)
        ensures
            r.block == self.block,
            r.row == self.row,
            r.col == self.col,
            r.proof@ == self.proof@,
    {
        let proof = self.proof.clone();
        assert(proof@ =~= self.proof@);
        Cell { block: self.block, row: self.row, col: self.col, proof }
    }
}

/// Why a column could not be recovered.
#[derive(Clone, Copy, Debug, PartialEq, Eq, Structural)]
pub enum ReconstructError {
    /// The number of rows is not a power of two.
    RowCountNotPowerOfTwo,
    /// Fewer cells than half the number of rows.
    TooFewCells,
    /// More cells than rows.
    TooManyCells,
    /// No cell at all.
    NoCells,
    /// Two cells name different columns.
    ColumnMismatch,
    /// The field holds no domain of as many points as there are rows.
    DomainUnavailable,
    /// The payload of a cell is not the canonical encoding of a field element.
    MalformedSample,
    /// The cells do not fix the column.
    InterpolationFailed,
}

/// The field element that a payload encodes: it must be 32 bytes that spell, in
/// little-endian order, a number below the modulus.
pub open spec fn sample_of(payload: Seq<u8>) -> Option<nat> {
    if payload.len() == 32 && le_value(payload) < modulus() {
        Some(le_value(payload))
    } else {
        None
    }
}

/// The index of the first cell that stands in `row`.
pub open spec fn first_with_row(cells: Seq<Cell>, row: int) -> Option<int>
    decreases cells.len(),
{
    if cells.len() == 0 {
        None
    } else {
        match first_with_row(cells.drop_last(), row) {
            Some(k) => Some(k),
            None => if cells.last().row == row {
                Some(cells.len() - 1)
            } else {
                None
            },
        }
    }
}

/// The payload that speaks for `row`: that of the first cell standing there.
pub open spec fn payload_of_row(cells: Seq<Cell>, row: int) -> Option<Seq<u8>> {
    match first_with_row(cells, row) {
        Some(k) => Some(cells[k].proof@),
        None => None,
    }
}

/// Some row below `row_count` is spoken for by a payload that encodes no field element.
pub open spec fn has_malformed_sample(cells: Seq<Cell>, row_count: nat) -> bool {
    exists|row: int|
        0 <= row < row_count && (#[trigger] payload_of_row(cells, row)) is Some && sample_of(
            payload_of_row(cells, row)->0,
        ) is None
}

/// The column with its gaps: at each row the element that its payload encodes.
pub open spec fn column_samples(cells: Seq<Cell>, row_count: nat) -> Seq<Option<nat>> {
    Seq::new(
        row_count,
        |row: int|
            match payload_of_row(cells, row) {
                Some(p) => sample_of(p),
                None => None,
            },
    )
}

/// All cells name the column of the first.
pub open spec fn same_column(cells: Seq<Cell>) -> bool {
    forall|i: int| 0 <= i < cells.len() ==> (#[trigger] cells[i]).col == cells[0].col
}

/// What recovering the column of `cells` over `row_count` rows comes to: the
/// first of the failures that applies, in this order, or the recovered column.
pub open spec fn reconstruct_outcome(row_count: nat, cells: Seq<Cell>) -> Result<
    Seq<nat>,
    ReconstructError,
> {
    if !is_power_of_two(row_count) {
        Err(ReconstructError::RowCountNotPowerOfTwo)
    } else if cells.len() < row_count / 2 {
        Err(ReconstructError::TooFewCells)
    } else if cells.len() > row_count {
        Err(ReconstructError::TooManyCells)
    } else if cells.len() == 0 {
        Err(ReconstructError::NoCells)
    } else if !same_column(cells) {
        Err(ReconstructError::ColumnMismatch)
    } else if !domain_supported(row_count) {
        Err(ReconstructError::DomainUnavailable)
    } else if has_malformed_sample(cells, row_count) {
        Err(ReconstructError::MalformedSample)
    } else {
        match interpolation(row_count, column_samples(cells, row_count)) {
            None => Err(ReconstructError::InterpolationFailed),
            Some(column) => Ok(column),
        }
    }
}

/// The value at `x` of the polynomial that the cells fix: the one that
/// Lagrange's formula gives for the samples that are known, each at the point of
/// its row.
pub open spec fn column_polynomial(row_count: nat, cells: Seq<Cell>, x: nat) -> nat {
    let samples = column_samples(cells, row_count);
    lagrange(known_points(domain_points(row_count), samples), known_values(samples), x)
}

/// Fewer cells than half the rows are refused, whatever they hold.
pub proof fn lemma_too_few_cells_fail(row_count: nat, cells: Seq<Cell>)
    requires
        cells.len() < row_count / 2,
    ensures
        reconstruct_outcome(row_count, cells) is Err,
        is_power_of_two(row_count) ==> reconstruct_outcome(row_count, cells) == Err::<
            Seq<nat>,
            ReconstructError,
        >(ReconstructError::TooFewCells),
{
}

/// Enough good cells are accepted.
///
/// Let the number of rows be a power of two that has its domain, and let there
/// be cells, all of one column, at least half as many as rows and no more than
/// rows. Where no payload that speaks for a row is malformed, enough rows are
/// spoken for, and no node has a zero denominator, the column is recovered.
pub proof fn lemma_enough_cells_succeed(row_count: nat, cells: Seq<Cell>)
    requires
        domain_supported(row_count),
        0 < cells.len(),
        row_count / 2 <= cells.len() <= row_count,
        same_column(cells),
        !has_malformed_sample(cells, row_count),
        !too_few_known(row_count, column_samples(cells, row_count)),
        !has_zero_denominator(
            known_points(domain_points(row_count), column_samples(cells, row_count)),
        ),
    ensures
        reconstruct_outcome(row_count, cells) == Ok::<Seq<nat>, ReconstructError>(
            reconstruction(domain_points(row_count), column_samples(cells, row_count)),
        ),
{
}

/// Cells of two columns are refused.
pub proof fn lemma_column_mismatch_fails(row_count: nat, cells: Seq<Cell>, i: int, j: int)
    requires
        0 <= i < cells.len(),
        0 <= j < cells.len(),
        cells[i].col != cells[j].col,
    ensures
        reconstruct_outcome(row_count, cells) is Err,
        is_power_of_two(row_count) && row_count / 2 <= cells.len() <= row_count
            ==> reconstruct_outcome(row_count, cells) == Err::<Seq<nat>, ReconstructError>(
            ReconstructError::ColumnMismatch,
        ),
{
    if same_column(cells) {
    }
}

/// A number of rows that is no power of two is refused, whatever the cells.
pub proof fn lemma_not_power_of_two_fails(row_count: nat, cells: Seq<Cell>)
    requires
        !is_power_of_two(row_count),
    ensures
        reconstruct_outcome(row_count, cells) == Err::<Seq<nat>, ReconstructError>(
            ReconstructError::RowCountNotPowerOfTwo,
        ),
{
}

/// A column that comes back has one element for each row, and holds each known
/// sample at its row.
pub proof fn lemma_recovered_column_keeps_samples(row_count: nat, cells: Seq<Cell>, row: int)
    requires
        reconstruct_outcome(row_count, cells) is Ok,
        0 <= row < row_count,
    ensures
        reconstruct_outcome(row_count, cells)->Ok_0.len() == row_count,
        column_samples(cells, row_count)[row] matches Some(v) ==> reconstruct_outcome(
            row_count,
            cells,
        )->Ok_0[row] == v,
{
}

/// A first cell found in a prefix is the first cell of the whole.
pub proof fn lemma_first_with_row_extends(cells: Seq<Cell>, row: int, upto: int)
    requires
        0 <= upto <= cells.len(),
        first_with_row(cells.take(upto), row) is Some,
    ensures
        first_with_row(cells, row) == first_with_row(cells.take(upto), row),
    decreases cells.len() - upto,
{
    if upto < cells.len() {
        assert(cells.take(upto + 1).drop_last() =~= cells.take(upto));
        lemma_first_with_row_extends(cells, row, upto + 1);
    } else {
        assert(cells.take(upto) =~= cells);
    }
}

impl ReconstructError {
    /// A sentence that says what went wrong.
    pub fn message(&self) -> (r: String)
        ensures
            r@ == match *self {
                ReconstructError::RowCountNotPowerOfTwo => "row count is not a power of two"@,
                ReconstructError::TooFewCells => "not enough samples: fewer cells than half the row count"@,
                ReconstructError::TooManyCells => "more cells than rows"@,
                ReconstructError::NoCells => "no cells given"@,
                ReconstructError::ColumnMismatch => "cells belong to different columns"@,
                ReconstructError::DomainUnavailable => "no evaluation domain of this size"@,
                ReconstructError::MalformedSample => "malformed sample: payload is no canonical field element"@,
                ReconstructError::InterpolationFailed => "interpolation failed: the cells do not fix the column"@,
            },
    {
        match self {
            ReconstructError::RowCountNotPowerOfTwo => "row count is not a power of two".to_owned(),
            ReconstructError::TooFewCells => "not enough samples: fewer cells than half the row count".to_owned(),
            ReconstructError::TooManyCells => "more cells than rows".to_owned(),
            ReconstructError::NoCells => "no cells given".to_owned(),
            ReconstructError::ColumnMismatch => "cells belong to different columns".to_owned(),
            ReconstructError::DomainUnavailable => "no evaluation domain of this size".to_owned(),
            ReconstructError::MalformedSample => "malformed sample: payload is no canonical field element".to_owned(),
            ReconstructError::InterpolationFailed => "interpolation failed: the cells do not fix the column".to_owned(),
        }
    }
}

/// Whether there is a cell and every cell names the column of the first.
pub fn check_cells(cells: &[Cell]) -> (r: bool)
    ensures
        r == (cells@.len() > 0 && same_column(cells@)),
{
    if cells.len() == 0 {
        return false;
    }
    let col = cells[0].col;
    let mut i: usize = 0;
    while i < cells.len()
        invariant
            i <= cells.len(),
            cells@.len() > 0,
            col == cells@[0].col,
            forall|j: int| 0 <= j < i ==> (#[trigger] cells@[j]).col == col,
        decreases cells.len() - i,
    {
        if cells[i].col != col {
            return false;
        }
        i += 1;
    }
    true
}

/// The index of the first cell that stands in row `idx`.
pub fn find_row_by_index(idx: usize, cells: &[Cell]) -> (r: Option<usize>)
    ensures
        match r {
            Some(k) => first_with_row(cells@, idx as int) == Some(k as int) && k < cells@.len(),
            None => first_with_row(cells@, idx as int) is None,
        },
{
    let mut k: usize = 0;
    while k < cells.len()
        invariant
            k <= cells.len(),
            first_with_row(cells@.take(k as int), idx as int) is None,
        decreases cells.len() - k,
    {
        proof {
            assert(cells@.take(k + 1).drop_last() =~= cells@.take(k as int));
        }
        if cells[k].row as usize == idx {
            proof {
                lemma_first_with_row_extends(cells@, idx as int, k + 1);
            }
            return Some(k);
        }
        k += 1;
    }
    proof {
        assert(cells@.take(cells@.len() as int) =~= cells@);
    }
    None
}

/// Reads the field element that a payload encodes.
pub fn decode_sample(payload: &Vec<u8>) -> (r: Option<Scalar>)
    ensures
        match r {
            Some(s) => sample_of(payload@) == Some(s@),
            None => sample_of(payload@) is None,
        },
{
    if payload.len() != 32 {
        return None;
    }
    let mut bytes = [0u8; 32];
    let mut i: usize = 0;
    while i < 32
        invariant
            i <= 32,
            payload.len() == 32,
            forall|j: int| 0 <= j < i ==> bytes@[j] == payload@[j],
        decreases 32 - i,
    {
        bytes[i] = payload[i];
        i += 1;
    }
    assert(bytes@ =~= payload@);
    Scalar::from_bytes(&bytes)
}

/// The column with its gaps: for each row the element of the first cell that
/// stands there. `None` where such a cell's payload encodes no field element.
pub fn collect_samples(row_count: usize, cells: &[Cell]) -> (r: Option<Vec<Option<Scalar>>>)
    ensures
        r is None <==> has_malformed_sample(cells@, row_count as nat),
        r matches Some(samples) ==> sample_values(samples@) == column_samples(
            cells@,
            row_count as nat,
        ),
{
    let mut samples: Vec<Option<Scalar>> = Vec::new();
    let mut row: usize = 0;
    while row < row_count
        invariant
            row <= row_count,
            samples.len() == row,
            forall|i: int|
                0 <= i < row ==> !((#[trigger] payload_of_row(cells@, i)) is Some && sample_of(
                    payload_of_row(cells@, i)->0,
                ) is None),
            forall|i: int|
                0 <= i < row ==> (#[trigger] sample_values(samples@)[i]) == column_samples(
                    cells@,
                    row_count as nat,
                )[i],
        decreases row_count - row,
    {
        let ghost before = sample_values(samples@);
        let slot = match find_row_by_index(row, cells) {
            None => None,
            Some(k) => match decode_sample(&cells[k].proof) {
                None => {
                    assert(payload_of_row(cells@, row as int) is Some);
                    return None;
                },
                Some(s) => Some(s),
            },
        };
        samples.push(slot);
        proof {
            let now = sample_values(samples@);
            assert(forall|i: int| 0 <= i < row ==> now[i] == before[i]);
            assert(now[row as int] == match slot {
                Some(s) => Some(s@),
                None => None,
            });
        }
        row += 1;
    }
    Some(samples)
}

/// Recovers the whole column of `row_count` rows from the cells of it in `cells`.
///
/// The result is `reconstruct_outcome`: each failure comes on exactly the inputs
/// it names, and success brings the column row by row.
pub fn reconstruct_column(row_count: usize, cells: &[Cell]) -> (r: Result<
    Vec<Scalar>,
    ReconstructError,
>)
    ensures
        match r {
            Ok(column) => reconstruct_outcome(row_count as nat, cells@) == Ok::<
                Seq<nat>,
                ReconstructError,
            >(values(column@)),
            Err(e) => reconstruct_outcome(row_count as nat, cells@) == Err::<
                Seq<nat>,
                ReconstructError,
            >(e),
        },
        r matches Ok(column) ==> forall|row: int|
            0 <= row < row_count ==> (#[trigger] column[row])@ == column_polynomial(
                row_count as nat,
                cells@,
                domain_points(row_count as nat)[row],
            ),
{
    if !check_power_of_two(row_count) {
        return Err(ReconstructError::RowCountNotPowerOfTwo);
    }
    if cells.len() < row_count / 2 {
        return Err(ReconstructError::TooFewCells);
    }
    if cells.len() > row_count {
        return Err(ReconstructError::TooManyCells);
    }
    if cells.len() == 0 {
        return Err(ReconstructError::NoCells);
    }
    if !check_cells(cells) {
        return Err(ReconstructError::ColumnMismatch);
    }
    let domain = match EvaluationDomain::new(row_count) {
        None => {
            return Err(ReconstructError::DomainUnavailable);
        },
        Some(d) => d,
    };
    let samples = match collect_samples(row_count, cells) {
        None => {
            return Err(ReconstructError::MalformedSample);
        },
        Some(s) => s,
    };
    match interpolate(&domain, &samples) {
        None => Err(ReconstructError::InterpolationFailed),
        Some(column) => {
            proof {
                let pts = domain_points(row_count as nat);
                let smp = column_samples(cells@, row_count as nat);
                assert(reconstruction(pts, smp).len() == row_count);
                assert forall|row: int| 0 <= row < row_count implies (#[trigger] column[row])@
                    == column_polynomial(row_count as nat, cells@, pts[row]) by {
                    assert forall|i: int| 0 <= i < pts.len() implies pts[i] < modulus() by {
                        lemma_domain_points_bounded(row_count as nat, i);
                    }
                    lemma_reconstruction_on_polynomial(pts, smp, row);
                }
            }
            Ok(column)
        },
    }
}

} // verus!
