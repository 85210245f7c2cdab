//! The matrix of a block before it is published, and the builder that asks for
//! its cells one by one, column by column.

use crate::dag::{dag_cbor_block, encode, leaf_node, leaf_shape, BlockView, EncodedBlock};
use vstd::arithmetic::div_mod::{
    lemma_fundamental_div_mod, lemma_fundamental_div_mod_converse, lemma_mod_bound,
};
use vstd::arithmetic::mul::{lemma_mul_inequality, lemma_mul_is_commutative};
use vstd::prelude::*;

verus! {

/// One column of the matrix: the leaf blocks of its cells, by ascending row.
#[derive(Debug)]
pub struct Column {
    pub cells: Vec<EncodedBlock>,
}

/// The matrix of one block: its number and its columns, by ascending column.
#[derive(Debug)]
pub struct DataMatrix {
    pub block_num: i128,
    pub columns: Vec<Column>,
}

/// What a matrix holds.
pub struct MatrixView {
    pub block_num: int,
    pub columns: Seq<Seq<BlockView>>,
}

impl View for Column {
    type V = Seq<BlockView>;

    open spec fn view(&self) -> Seq<BlockView> {
        self.cells@.map_values(|b: EncodedBlock| b@)
    }
}

impl View for DataMatrix {
    type V = MatrixView;

    open spec fn view(&self) -> MatrixView {
        MatrixView {
            block_num: self.block_num as int,
            columns: self.columns@.map_values(|c: Column| c@),
        }
    }
}

/// The coordinate whose payload the builder asks for.
#[derive(Clone, Copy, Debug, PartialEq, Eq, Structural)]
pub struct CellRequest {
    pub block: u64,
    pub row: u16,
    pub col: u16,
}

/// Why the builder took no payload.
#[derive(Clone, Copy, Debug, PartialEq, Eq, Structural)]
pub enum BuildError {
    /// Every cell of the matrix has its payload already.
    NothingRequested,
    /// The payload could not be made into a block.
    EncodingFailed,
}

/// The request that follows `supplied` payloads: the coordinates run through a
/// column row by row before the next column begins.
pub open spec fn request_at(block: u64, row_count: nat, col_count: nat, supplied: nat) -> Option<
    CellRequest,
> {
    if supplied < row_count * col_count {
        Some(
            CellRequest {
                block,
                row: (supplied % row_count) as u16,
                col: (supplied / row_count) as u16,
            },
        )
    } else {
        None
    }
}

/// The matrix of `col_count` columns of `row_count` cells that holds `cells`,
/// which come column by column.
pub open spec fn matrix_of(block: u64, row_count: nat, col_count: nat, cells: Seq<BlockView>) -> MatrixView {
    MatrixView {
        block_num: block as int,
        columns: Seq::new(
            col_count,
            |c: int| Seq::new(row_count, |r: int| cells[c * row_count + r]),
        ),
    }
}

/// Every coordinate of the matrix is asked for, and by one request only: the
/// cell in `row` and `col` is the request that follows `col * row_count + row`
/// payloads, and no other request names it.
pub proof fn lemma_requests_cover(block: u64, row_count: nat, col_count: nat, row: nat, col: nat)
    requires
        row < row_count <= u16::MAX,
        col < col_count <= u16::MAX,
    ensures
        col * row_count + row < row_count * col_count,
        request_at(block, row_count, col_count, col * row_count + row) == Some(
            CellRequest { block, row: row as u16, col: col as u16 },
        ),
        forall|k: nat|
            request_at(block, row_count, col_count, k) == Some(
                CellRequest { block, row: row as u16, col: col as u16 },
            ) ==> k == col * row_count + row,
{
    let k0 = col * row_count + row;
    assert(k0 < row_count * col_count) by {
        lemma_mul_inequality(col as int + 1, col_count as int, row_count as int);
        assert((col + 1) * row_count == col * row_count + row_count) by (nonlinear_arith);
        lemma_mul_is_commutative(row_count as int, col_count as int);
    }
    assert(k0 / row_count == col && k0 % row_count == row) by {
        lemma_mul_is_commutative(col as int, row_count as int);
        lemma_fundamental_div_mod_converse(k0 as int, row_count as int, col as int, row as int);
    }
    assert forall|k: nat|
        request_at(block, row_count, col_count, k) == Some(
            CellRequest { block, row: row as u16, col: col as u16 },
        ) implies k == k0 by {
        lemma_request_in_range(row_count, col_count, k);
        lemma_fundamental_div_mod(k as int, row_count as int);
        lemma_mul_is_commutative(col as int, row_count as int);
    }
}

/// The row and the column of a request are within the matrix.
pub proof fn lemma_request_in_range(row_count: nat, col_count: nat, supplied: nat)
    requires
        supplied < row_count * col_count,
    ensures
        row_count > 0,
        supplied % row_count < row_count,
        supplied / row_count < col_count,
{
    assert(row_count > 0) by (nonlinear_arith)
        requires
            supplied < row_count * col_count,
    ;
    lemma_mod_bound(supplied as int, row_count as int);
    lemma_fundamental_div_mod(supplied as int, row_count as int);
    let q = supplied / row_count;
    if q >= col_count {
        lemma_mul_inequality(col_count as int, q as int, row_count as int);
        lemma_mul_is_commutative(row_count as int, col_count as int);
        lemma_mul_is_commutative(row_count as int, q as int);
    }
}

/// A matrix under construction: the leaf blocks made so far, in the order in
/// which their payloads were asked for.
pub struct MatrixBuilder {
    block: u64,
    row_count: u16,
    col_count: u16,
    cells: Vec<EncodedBlock>,
}

impl MatrixBuilder {
    /// The number of the block.
    pub closed spec fn block(&self) -> u64 {
        self.block
    }

    /// The number of rows.
    pub closed spec fn row_count(&self) -> nat {
        self.row_count as nat
    }

    /// The number of columns.
    pub closed spec fn col_count(&self) -> nat {
        self.col_count as nat
    }

    /// The leaf blocks made so far, column by column.
    pub closed spec fn cells(&self) -> Seq<BlockView> {
        self.cells@.map_values(|b: EncodedBlock| b@)
    }

    /// The request that is due, which is `None` once every cell has its payload.
    pub open spec fn due(&self) -> Option<CellRequest> {
        request_at(self.block(), self.row_count(), self.col_count(), self.cells().len())
    }

    /// The coordinate whose payload the builder needs next; `None` when the
    /// matrix is complete.
    pub fn next_request(&self) -> (r: Option<CellRequest>)
        ensures
            r == self.due(),
    {
        proof {
            assert(self.row_count as nat * self.col_count as nat <= 0xffff * 0xffff) by (nonlinear_arith)
                requires
                    self.row_count <= 0xffff,
                    self.col_count <= 0xffff,
            ;
        }
        let total: u64 = self.row_count as u64 * self.col_count as u64;
        let have: u64 = self.cells.len() as u64;
        if have < total {
            proof {
                lemma_request_in_range(self.row_count as nat, self.col_count as nat, have as nat);
            }
            let rows: u64 = self.row_count as u64;
            Some(CellRequest { block: self.block, row: (have % rows) as u16, col: (have / rows) as u16 })
        } else {
            None
        }
    }

    /// Takes the payload of the coordinate that is due and makes its leaf block.
    ///
    /// The block joins the cells exactly when a request was due and `libipld`
    /// accepts the payload; otherwise the builder stays as it was.
    pub fn supply(&mut self, payload: Vec<u8>) -> (r: Result<(), BuildError>)
        ensures
            final(self).block() == old(self).block(),
            final(self).row_count() == old(self).row_count(),
            final(self).col_count() == old(self).col_count(),
            match r {
                Ok(_) => old(self).due() is Some && dag_cbor_block(leaf_shape(payload@)) is Some
                    && final(self).cells() == old(self).cells().push(
                    dag_cbor_block(leaf_shape(payload@))->0,
                ),
                Err(BuildError::NothingRequested) => old(self).due() is None && final(self).cells()
                    == old(self).cells(),
                Err(BuildError::EncodingFailed) => old(self).due() is Some && dag_cbor_block(
                    leaf_shape(payload@),
                ) is None && final(self).cells() == old(self).cells(),
            },
    {
        if self.next_request().is_none() {
            return Err(BuildError::NothingRequested);
        }
        let node = leaf_node(payload);
        match encode(&node) {
            None => Err(BuildError::EncodingFailed),
            Some(block) => {
                self.cells.push(block);
                Ok(())
            },
        }
    }

    /// The finished matrix; `None` while a request is due.
    pub fn into_matrix(self) -> (r: Option<DataMatrix>)
        ensures
            r is Some <==> self.due() is None,
            r matches Some(m) ==> m@ == matrix_of(
                self.block(),
                self.row_count(),
                self.col_count(),
                self.cells(),
            ),
    {
        if self.next_request().is_some() {
            return None;
        }
        let rows: usize = self.row_count as usize;
        let cols: usize = self.col_count as usize;
        let ghost flat = self.cells();
        let have: usize = self.cells.len();
        let mut columns: Vec<Column> = Vec::new();
        let mut c: usize = 0;
        while c < cols
            invariant
                c <= cols,
                rows == self.row_count,
                cols == self.col_count,
                flat == self.cells(),
                have == flat.len(),
                flat.len() >= rows * cols,
                columns.len() == c,
                forall|i: int|
                    0 <= i < c ==> (#[trigger] columns[i])@ == Seq::new(
                        rows as nat,
                        |r: int| flat[i * rows + r],
                    ),
            decreases cols - c,
        {
            let mut cells: Vec<EncodedBlock> = Vec::new();
            let mut r: usize = 0;
            while r < rows
                invariant
                    r <= rows,
                    c < cols,
                    rows == self.row_count,
                    cols == self.col_count,
                    flat == self.cells(),
                    have == flat.len(),
                    flat.len() >= rows * cols,
                    cells.len() == r,
                    forall|j: int| 0 <= j < r ==> (#[trigger] cells[j])@ == flat[c * rows + j],
                decreases rows - r,
            {
                proof {
                    lemma_cell_index(rows as nat, cols as nat, r as nat, c as nat);
                    assert(c * rows >= 0) by (nonlinear_arith)
                        requires
                            c >= 0,
                            rows >= 0,
                    ;
                }
                cells.push(self.cells[c * rows + r].clone());
                r += 1;
            }
            let column = Column { cells };
            columns.push(column);
            c += 1;
        }
        let matrix = DataMatrix { block_num: self.block as i128, columns };
        assert(matrix@.columns =~= matrix_of(
            self.block(),
            self.row_count(),
            self.col_count(),
            self.cells(),
        ).columns);
        Some(matrix)
    }
}

/// The place of a cell among the cells of the matrix lies within them.
pub proof fn lemma_cell_index(row_count: nat, col_count: nat, row: nat, col: nat)
    requires
        row < row_count,
        col < col_count,
    ensures
        col * row_count + row < row_count * col_count,
{
    lemma_mul_inequality(col as int + 1, col_count as int, row_count as int);
    assert((col + 1) * row_count == col * row_count + row_count) by (nonlinear_arith);
    lemma_mul_is_commutative(row_count as int, col_count as int);
}

/// Begins the matrix of `block` with `row_count` rows and `col_count` columns.
///
/// The builder that comes back has no cell yet. It asks for one payload at a
/// time, through a column row by row and then on to the next column.
pub fn construct_matrix(block: u64, row_count: u16, col_count: u16) -> (r: MatrixBuilder)
    ensures
        r.block() == block,
        r.row_count() == row_count,
        r.col_count() == col_count,
        r.cells() == Seq::<BlockView>::empty(),
{
    let builder = MatrixBuilder { block, row_count, col_count, cells: Vec::new() };
    builder
}

} // verus!
