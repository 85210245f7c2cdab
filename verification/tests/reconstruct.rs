use data_availability::domain::EvaluationDomain;
use data_availability::field::Scalar;
use data_availability::interpolate::{count_known, fill_gaps, interpolate};
use data_availability::reconstruct::{
    check_cells, collect_samples, decode_sample, find_row_by_index, reconstruct_column, Cell,
    ReconstructError,
};

const MODULUS_LE: [u8; 32] = [
    0x01, 0x00, 0x00, 0x00, 0xff, 0xff, 0xff, 0xff, 0xfe, 0x5b, 0xfe, 0xff, 0x02, 0xa4, 0xbd, 0x53,
    0x05, 0xd8, 0xa1, 0x09, 0x08, 0xd8, 0x39, 0x33, 0x48, 0x7d, 0x9d, 0x29, 0x53, 0xa7, 0xed, 0x73,
];

fn scalar(n: u64) -> Scalar {
    let mut bytes = [0u8; 32];
    bytes[..8].copy_from_slice(&n.to_le_bytes());
    Scalar::from_bytes(&bytes).unwrap()
}

/// The values, over the domain of `rows` points, of the polynomial with the given coefficients.
fn coded_column(coefficients: &[u64], rows: usize) -> Vec<Scalar> {
    let points = EvaluationDomain::new(rows).unwrap().points();
    points
        .iter()
        .map(|x| {
            let mut acc = Scalar::zero();
            for c in coefficients.iter().rev() {
                acc = acc.times(x).plus(&scalar(*c));
            }
            acc
        })
        .collect()
}

fn cell(row: u16, col: u16, value: &Scalar) -> Cell {
    Cell { block: 1, row, col, proof: value.to_bytes().to_vec() }
}

fn cells_of(column: &[Scalar], col: u16, keep: &[usize]) -> Vec<Cell> {
    keep.iter().map(|&row| cell(row as u16, col, &column[row])).collect()
}

fn bytes_of(column: &[Scalar]) -> Vec<[u8; 32]> {
    column.iter().map(|s| s.to_bytes()).collect()
}

#[test]
fn round_trip_for_every_choice_of_four_missing_rows() {
    let column = coded_column(&[11, 22, 33, 44], 8);
    let mut tried = 0;
    for mask in 0u32..256 {
        if mask.count_ones() != 4 {
            continue;
        }
        let keep: Vec<usize> = (0..8).filter(|i| mask & (1 << i) != 0).collect();
        let cells = cells_of(&column, 3, &keep);
        let got = reconstruct_column(8, &cells).unwrap();
        assert_eq!(bytes_of(&got), bytes_of(&column));
        tried += 1;
    }
    assert_eq!(tried, 70);
}

#[test]
fn round_trip_for_every_subset_above_the_threshold() {
    let column = coded_column(&[9, 0, 7, 5], 8);
    for mask in 0u32..256 {
        if mask.count_ones() <= 4 {
            continue;
        }
        let keep: Vec<usize> = (0..8).filter(|i| mask & (1 << i) != 0).collect();
        let cells = cells_of(&column, 0, &keep);
        let got = reconstruct_column(8, &cells).unwrap();
        assert_eq!(bytes_of(&got), bytes_of(&column));
    }
}

#[test]
fn round_trip_does_not_depend_on_the_order_of_the_cells() {
    let column = coded_column(&[1, 2, 3, 4], 8);
    let cells = cells_of(&column, 3, &[7, 2, 5, 0]);
    let got = reconstruct_column(8, &cells).unwrap();
    assert_eq!(bytes_of(&got), bytes_of(&column));
}

#[test]
fn round_trip_of_sixty_four_rows() {
    let coefficients: Vec<u64> = (1..=32).map(|i| i * i + 7).collect();
    let column = coded_column(&coefficients, 64);
    let keep: Vec<usize> = (0..64).filter(|i| i % 2 == 1).collect();
    let cells = cells_of(&column, 2, &keep);
    let got = reconstruct_column(64, &cells).unwrap();
    assert_eq!(bytes_of(&got), bytes_of(&column));
}

#[test]
fn round_trip_of_sixteen_rows() {
    let column = coded_column(&[3, 1, 4, 1, 5, 9, 2, 6], 16);
    let cells = cells_of(&column, 9, &[1, 3, 4, 6, 9, 10, 12, 15]);
    let got = reconstruct_column(16, &cells).unwrap();
    assert_eq!(bytes_of(&got), bytes_of(&column));
}

#[test]
fn too_few_cells_are_refused() {
    let column = coded_column(&[11, 22, 33, 44], 8);
    let cells = cells_of(&column, 3, &[0, 1, 2]);
    assert_eq!(reconstruct_column(8, &cells).unwrap_err(), ReconstructError::TooFewCells);
}

#[test]
fn exactly_half_the_rows_are_enough() {
    let column = coded_column(&[11, 22, 33, 44], 8);
    let cells = cells_of(&column, 3, &[0, 1, 2, 3]);
    assert_eq!(bytes_of(&reconstruct_column(8, &cells).unwrap()), bytes_of(&column));
}

#[test]
fn all_rows_give_the_column_back() {
    let column = coded_column(&[11, 22, 33, 44], 8);
    let cells = cells_of(&column, 3, &[0, 1, 2, 3, 4, 5, 6, 7]);
    assert_eq!(bytes_of(&reconstruct_column(8, &cells).unwrap()), bytes_of(&column));
}

#[test]
fn more_cells_than_rows_are_refused() {
    let column = coded_column(&[11, 22, 33, 44], 8);
    let cells = cells_of(&column, 3, &[0, 1, 2, 3, 4, 5, 6, 7, 0]);
    assert_eq!(reconstruct_column(8, &cells).unwrap_err(), ReconstructError::TooManyCells);
}

#[test]
fn cells_of_two_columns_are_refused() {
    let column = coded_column(&[11, 22, 33, 44], 8);
    let mut cells = cells_of(&column, 3, &[0, 1, 2, 3, 4]);
    cells[4].col = 4;
    assert_eq!(reconstruct_column(8, &cells).unwrap_err(), ReconstructError::ColumnMismatch);
    let mut cells = cells_of(&column, 3, &[0, 1, 2, 3, 4]);
    cells[0].col = 2;
    assert_eq!(reconstruct_column(8, &cells).unwrap_err(), ReconstructError::ColumnMismatch);
}

#[test]
fn row_counts_that_are_no_power_of_two_are_refused() {
    let column = coded_column(&[11, 22, 33, 44], 8);
    for rows in [0usize, 3, 6, 10, 12] {
        let cells = cells_of(&column, 3, &[0, 1, 2, 3, 4]);
        assert_eq!(
            reconstruct_column(rows, &cells).unwrap_err(),
            ReconstructError::RowCountNotPowerOfTwo
        );
    }
}

#[test]
fn no_cells_are_refused() {
    assert_eq!(reconstruct_column(1, &[]).unwrap_err(), ReconstructError::NoCells);
    assert_eq!(reconstruct_column(8, &[]).unwrap_err(), ReconstructError::TooFewCells);
}

#[test]
fn failures_come_in_their_order() {
    // no power of two wins over everything
    assert_eq!(reconstruct_column(6, &[]).unwrap_err(), ReconstructError::RowCountNotPowerOfTwo);
    // the count is looked at before the columns
    let column = coded_column(&[1, 2], 4);
    let mut cells = cells_of(&column, 3, &[0]);
    cells[0].col = 1;
    assert_eq!(reconstruct_column(4, &cells).unwrap_err(), ReconstructError::TooFewCells);
    // the columns are looked at before the payloads
    let mut cells = cells_of(&column, 3, &[0, 1]);
    cells[1].col = 1;
    cells[0].proof = vec![0; 3];
    assert_eq!(reconstruct_column(4, &cells).unwrap_err(), ReconstructError::ColumnMismatch);
}

#[test]
fn payload_of_the_wrong_length_is_malformed() {
    let column = coded_column(&[11, 22, 33, 44], 8);
    let mut cells = cells_of(&column, 3, &[0, 1, 2, 3]);
    cells[2].proof.pop();
    assert_eq!(reconstruct_column(8, &cells).unwrap_err(), ReconstructError::MalformedSample);
    let mut cells = cells_of(&column, 3, &[0, 1, 2, 3]);
    cells[2].proof.push(0);
    assert_eq!(reconstruct_column(8, &cells).unwrap_err(), ReconstructError::MalformedSample);
}

#[test]
fn payload_that_is_not_canonical_is_malformed() {
    let column = coded_column(&[11, 22, 33, 44], 8);
    let mut cells = cells_of(&column, 3, &[0, 1, 2, 3]);
    cells[1].proof = MODULUS_LE.to_vec();
    assert_eq!(reconstruct_column(8, &cells).unwrap_err(), ReconstructError::MalformedSample);
}

#[test]
fn repeated_rows_do_not_count_twice() {
    let column = coded_column(&[11, 22, 33, 44], 8);
    let cells = cells_of(&column, 3, &[0, 0, 1, 2]);
    assert_eq!(reconstruct_column(8, &cells).unwrap_err(), ReconstructError::InterpolationFailed);
}

#[test]
fn rows_outside_the_column_do_not_count() {
    let column = coded_column(&[11, 22, 33, 44], 8);
    let mut cells = cells_of(&column, 3, &[0, 1, 2, 3]);
    cells[3].row = 8;
    assert_eq!(reconstruct_column(8, &cells).unwrap_err(), ReconstructError::InterpolationFailed);
    // and their payload is not looked at
    let mut cells = cells_of(&column, 3, &[0, 1, 2, 3, 4]);
    cells[4].row = 200;
    cells[4].proof = vec![1, 2, 3];
    assert_eq!(bytes_of(&reconstruct_column(8, &cells).unwrap()), bytes_of(&column));
}

#[test]
fn the_first_cell_of_a_row_speaks_for_it() {
    let column = coded_column(&[11, 22, 33, 44], 8);
    let mut cells = cells_of(&column, 3, &[0, 1, 2, 3, 1]);
    cells[4].proof = scalar(999).to_bytes().to_vec();
    assert_eq!(bytes_of(&reconstruct_column(8, &cells).unwrap()), bytes_of(&column));
    // a later cell of the same row may even be malformed
    cells[4].proof = vec![];
    assert_eq!(bytes_of(&reconstruct_column(8, &cells).unwrap()), bytes_of(&column));
}

#[test]
fn one_row_comes_back_as_it_is() {
    let cells = vec![cell(0, 5, &scalar(42))];
    let got = reconstruct_column(1, &cells).unwrap();
    assert_eq!(bytes_of(&got), vec![scalar(42).to_bytes()]);
}

#[test]
fn one_row_that_no_cell_speaks_for_cannot_be_recovered() {
    let cells = vec![cell(5, 5, &scalar(42))];
    assert_eq!(reconstruct_column(1, &cells).unwrap_err(), ReconstructError::InterpolationFailed);
}

#[test]
fn one_sample_of_two_rows_gives_a_constant_column() {
    let cells = vec![cell(1, 5, &scalar(5))];
    let got = reconstruct_column(2, &cells).unwrap();
    assert_eq!(bytes_of(&got), vec![scalar(5).to_bytes(), scalar(5).to_bytes()]);
}

#[test]
fn two_samples_fix_a_line() {
    // over the points 1, w, -1, -w the line 3 + 2x has the values 5, 3 + 2w, 1, 3 - 2w
    let points = EvaluationDomain::new(4).unwrap().points();
    let line = |x: &Scalar| scalar(3).plus(&scalar(2).times(x));
    let cells = vec![cell(0, 0, &scalar(5)), cell(2, 0, &scalar(1))];
    let got = reconstruct_column(4, &cells).unwrap();
    assert_eq!(got[0].to_bytes(), scalar(5).to_bytes());
    assert_eq!(got[1].to_bytes(), line(&points[1]).to_bytes());
    assert_eq!(got[2].to_bytes(), scalar(1).to_bytes());
    assert_eq!(got[3].to_bytes(), line(&points[3]).to_bytes());
}

#[test]
fn every_failure_has_its_message() {
    let all = [
        ReconstructError::RowCountNotPowerOfTwo,
        ReconstructError::TooFewCells,
        ReconstructError::TooManyCells,
        ReconstructError::NoCells,
        ReconstructError::ColumnMismatch,
        ReconstructError::DomainUnavailable,
        ReconstructError::MalformedSample,
        ReconstructError::InterpolationFailed,
    ];
    for (i, a) in all.iter().enumerate() {
        for b in &all[..i] {
            assert_ne!(a.message(), b.message());
        }
    }
    assert_eq!(
        ReconstructError::TooFewCells.message(),
        "not enough samples: fewer cells than half the row count"
    );
    assert_eq!(
        ReconstructError::MalformedSample.message(),
        "malformed sample: payload is no canonical field element"
    );
    assert_eq!(
        ReconstructError::InterpolationFailed.message(),
        "interpolation failed: the cells do not fix the column"
    );
}

#[test]
fn check_cells_wants_one_column_and_a_cell() {
    let column = coded_column(&[1, 2], 4);
    assert!(!check_cells(&[]));
    assert!(check_cells(&cells_of(&column, 7, &[0])));
    assert!(check_cells(&cells_of(&column, 7, &[0, 1, 2])));
    let mut cells = cells_of(&column, 7, &[0, 1, 2]);
    cells[2].col = 8;
    assert!(!check_cells(&cells));
}

#[test]
fn find_row_by_index_finds_the_first() {
    let column = coded_column(&[1, 2], 4);
    let cells = cells_of(&column, 7, &[2, 0, 2, 3]);
    assert_eq!(find_row_by_index(2, &cells), Some(0));
    assert_eq!(find_row_by_index(0, &cells), Some(1));
    assert_eq!(find_row_by_index(3, &cells), Some(3));
    assert_eq!(find_row_by_index(1, &cells), None);
    assert_eq!(find_row_by_index(65536 + 2, &cells), None);
    assert_eq!(find_row_by_index(0, &[]), None);
}

#[test]
fn decode_sample_reads_canonical_encodings() {
    assert_eq!(decode_sample(&scalar(77).to_bytes().to_vec()).unwrap().to_bytes(), scalar(77).to_bytes());
    assert!(decode_sample(&MODULUS_LE.to_vec()).is_none());
    assert!(decode_sample(&vec![0u8; 31]).is_none());
    assert!(decode_sample(&vec![0u8; 33]).is_none());
    assert!(decode_sample(&vec![]).is_none());
}

#[test]
fn collect_samples_puts_each_row_in_its_place() {
    let column = coded_column(&[1, 2], 4);
    let cells = cells_of(&column, 7, &[3, 1]);
    let samples = collect_samples(4, &cells).unwrap();
    assert_eq!(samples.len(), 4);
    assert!(samples[0].is_none());
    assert_eq!(samples[1].unwrap().to_bytes(), column[1].to_bytes());
    assert!(samples[2].is_none());
    assert_eq!(samples[3].unwrap().to_bytes(), column[3].to_bytes());
    assert_eq!(count_known(&samples), 2);
    assert_eq!(collect_samples(0, &cells).unwrap().len(), 0);
}

#[test]
fn interpolate_wants_one_sample_for_each_point() {
    let domain = EvaluationDomain::new(4).unwrap();
    let samples = vec![Some(scalar(1)), Some(scalar(2)), None];
    assert!(interpolate(&domain, &samples).is_none());
    let samples = vec![Some(scalar(1)), None, None, None];
    assert!(interpolate(&domain, &samples).is_none());
    let samples = vec![Some(scalar(1)), None, None, Some(scalar(1))];
    let got = interpolate(&domain, &samples).unwrap();
    assert_eq!(bytes_of(&got), vec![scalar(1).to_bytes(); 4]);
}

#[test]
fn fill_gaps_fails_on_nodes_that_coincide() {
    // two known samples at one and the same point: the denominators vanish
    let points = vec![scalar(3), scalar(3), scalar(4)];
    let samples = vec![Some(scalar(1)), Some(scalar(2)), None];
    assert!(fill_gaps(&points, &samples).is_none());
    assert!(fill_gaps(&points[..2].to_vec(), &samples).is_none());
    // distinct points: the line through (3, 1) and (5, 2) is 4 at 9... over the rationals;
    // in the field the value at 7 is 3
    let points = vec![scalar(3), scalar(5), scalar(7)];
    let samples = vec![Some(scalar(1)), Some(scalar(2)), None];
    let got = fill_gaps(&points, &samples).unwrap();
    assert_eq!(got[2].to_bytes(), scalar(3).to_bytes());
}
