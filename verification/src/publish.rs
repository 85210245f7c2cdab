//! Publishing a matrix as a graph of content-addressed blocks.
//!
//! The publisher decides; whoever drives it stores. It names the block that is
//! to be pinned and inserted next, is told whether the store took it, and moves
//! on: through the cells of a column, then the block of that column, and after
//! the last column the root. A cell or a column that the store refused is left
//! out of its parent; a refused root ends the publication in failure.

use crate::dag::{
    dag_cbor_block, encode, ids, link_list_node, link_list_shape, optional_id, root_node,
    root_shape, BlockView, ContentId, EncodedBlock,
};
use crate::matrix::{DataMatrix, MatrixView};
use vstd::prelude::*;

verus! {

/// Why a publication came to nothing.
#[derive(Clone, Copy, Debug, PartialEq, Eq, Structural)]
pub enum PublishError {
    /// The block of a column or of the root could not be made.
    EncodingFailed,
    /// The store refused the root.
    RootNotStored,
}

/// What the driver of a publication has to do next.
#[derive(Debug)]
pub enum Action {
    /// Pin this block and insert it, then report whether both went well.
    Store(EncodedBlock),
    /// Nothing more: the matrix is published under this root.
    Done(ContentId),
    /// Nothing more: the publication failed.
    Failed(PublishError),
}

/// What an action holds.
pub enum ActionView {
    Store(BlockView),
    Done(Seq<u8>),
    Failed(PublishError),
}

impl View for Action {
    type V = ActionView;

    open spec fn view(&self) -> ActionView {
        match self {
            Action::Store(b) => ActionView::Store(b@),
            Action::Done(c) => ActionView::Done(c@),
            Action::Failed(e) => ActionView::Failed(*e),
        }
    }
}

/// How far a publication has come.
pub struct Progress {
    /// The columns that are behind.
    pub col: nat,
    /// The cells of the current column that are behind.
    pub row: nat,
    /// The cells of the current column that the store took, in order.
    pub cell_links: Seq<Seq<u8>>,
    /// The columns that the store took, in order.
    pub col_links: Seq<Seq<u8>>,
    /// How it ended, once it has.
    pub outcome: Option<Result<Seq<u8>, PublishError>>,
}

/// The progress of a publication that has done nothing yet.
pub open spec fn start() -> Progress {
    Progress {
        col: 0,
        row: 0,
        cell_links: Seq::empty(),
        col_links: Seq::empty(),
        outcome: None,
    }
}

/// The block that is due: the next cell of the current column; after its last
/// cell the list of the links to those that were stored; after the last column
/// the root. `None` where that block cannot be made.
pub open spec fn due_block(m: MatrixView, prev: Option<Seq<u8>>, p: Progress) -> Option<BlockView> {
    if p.col < m.columns.len() {
        if p.row < m.columns[p.col as int].len() {
            Some(m.columns[p.col as int][p.row as int])
        } else {
            dag_cbor_block(link_list_shape(p.cell_links))
        }
    } else {
        dag_cbor_block(root_shape(p.col_links, m.block_num, prev))
    }
}

/// The action that is due.
pub open spec fn action_of(m: MatrixView, prev: Option<Seq<u8>>, p: Progress) -> ActionView {
    match p.outcome {
        Some(Ok(root)) => ActionView::Done(root),
        Some(Err(e)) => ActionView::Failed(e),
        None => match due_block(m, prev, p) {
            Some(b) => ActionView::Store(b),
            None => ActionView::Failed(PublishError::EncodingFailed),
        },
    }
}

/// The progress after the store has answered for the block that was due.
///
/// A cell that was stored adds its link to the current column, a column that
/// was stored adds its link to the root; one that was refused adds nothing, and
/// the publication goes on. The answer for the root ends it.
pub open spec fn advance(m: MatrixView, prev: Option<Seq<u8>>, p: Progress, stored: bool) -> Progress {
    if p.outcome is Some {
        p
    } else {
        match due_block(m, prev, p) {
            None => p,
            Some(b) => if p.col < m.columns.len() {
                if p.row < m.columns[p.col as int].len() {
                    Progress {
                        row: p.row + 1,
                        cell_links: if stored {
                            p.cell_links.push(b.cid)
                        } else {
                            p.cell_links
                        },
                        ..p
                    }
                } else {
                    Progress {
                        col: p.col + 1,
                        row: 0,
                        cell_links: Seq::empty(),
                        col_links: if stored {
                            p.col_links.push(b.cid)
                        } else {
                            p.col_links
                        },
                        ..p
                    }
                }
            } else {
                Progress {
                    outcome: Some(
                        if stored {
                            Ok(b.cid)
                        } else {
                            Err(PublishError::RootNotStored)
                        },
                    ),
                    ..p
                }
            },
        }
    }
}

/// The progress after the store has given `answers`, one for each block that
/// was due, in order.
pub open spec fn run(m: MatrixView, prev: Option<Seq<u8>>, p: Progress, answers: Seq<bool>) -> Progress
    decreases answers.len(),
{
    if answers.len() == 0 {
        p
    } else {
        advance(m, prev, run(m, prev, p, answers.drop_last()), answers.last())
    }
}

/// The links among `links` whose answer was yes, in order.
pub open spec fn survivors(links: Seq<Seq<u8>>, answers: Seq<bool>) -> Seq<Seq<u8>>
    decreases links.len(),
{
    if links.len() == 0 {
        Seq::empty()
    } else {
        let rest = survivors(links.drop_last(), answers.drop_last());
        if answers.last() {
            rest.push(links.last())
        } else {
            rest
        }
    }
}

/// The identifiers of the blocks of a column.
pub open spec fn cell_ids(column: Seq<BlockView>) -> Seq<Seq<u8>> {
    column.map_values(|b: BlockView| b.cid)
}

/// How many blocks are due before the first cell of column `c`: the cells of
/// the columns before it and one block for each of those columns.
pub open spec fn offset(m: MatrixView, c: nat) -> nat
    decreases c,
{
    if c == 0 {
        0
    } else {
        offset(m, (c - 1) as nat) + m.columns[c - 1].len() + 1
    }
}

/// How many blocks a publication offers to the store: every cell, every column
/// and the root.
pub open spec fn attempts(m: MatrixView) -> nat {
    offset(m, m.columns.len()) + 1
}

/// The answers for the cells of column `c`.
pub open spec fn cell_answers(m: MatrixView, answers: Seq<bool>, c: nat) -> Seq<bool> {
    answers.subrange(offset(m, c) as int, (offset(m, c) + m.columns[c as int].len()) as int)
}

/// The answer for the block of column `c`.
pub open spec fn column_answer(m: MatrixView, answers: Seq<bool>, c: nat) -> bool {
    answers[(offset(m, c) + m.columns[c as int].len()) as int]
}

/// The block of column `c`: the list of the links to its cells that were stored.
pub open spec fn column_block(m: MatrixView, answers: Seq<bool>, c: nat) -> Option<BlockView> {
    dag_cbor_block(
        link_list_shape(survivors(cell_ids(m.columns[c as int]), cell_answers(m, answers, c))),
    )
}

/// The links to the blocks of the first `c` columns that were stored, in order.
pub open spec fn column_links(m: MatrixView, answers: Seq<bool>, c: nat) -> Seq<Seq<u8>>
    decreases c,
{
    if c == 0 {
        Seq::empty()
    } else {
        let rest = column_links(m, answers, (c - 1) as nat);
        if column_answer(m, answers, (c - 1) as nat) {
            rest.push(column_block(m, answers, (c - 1) as nat)->0.cid)
        } else {
            rest
        }
    }
}

/// The root: the map of the links to the columns that were stored, the number
/// of the block, and the link to the root before it.
pub open spec fn root_block(m: MatrixView, prev: Option<Seq<u8>>, answers: Seq<bool>) -> Option<
    BlockView,
> {
    dag_cbor_block(root_shape(column_links(m, answers, m.columns.len()), m.block_num, prev))
}

/// The progress at the first cell of column `c`, and `row` cells into it.
pub open spec fn progress_at(m: MatrixView, answers: Seq<bool>, c: nat, row: nat) -> Progress {
    Progress {
        col: c,
        row,
        cell_links: survivors(
            cell_ids(m.columns[c as int]).take(row as int),
            answers.subrange(offset(m, c) as int, (offset(m, c) + row) as int),
        ),
        col_links: column_links(m, answers, c),
        outcome: None,
    }
}

/// The offsets grow with the columns.
pub proof fn lemma_offset_grows(m: MatrixView, c: nat, d: nat)
    requires
        c <= d,
    ensures
        offset(m, c) <= offset(m, d),
    decreases d,
{
    if c < d {
        lemma_offset_grows(m, c, (d - 1) as nat);
    }
}

/// Within a column the publication goes cell by cell, and keeps the links to
/// the cells that were stored.
proof fn lemma_run_in_column(m: MatrixView, prev: Option<Seq<u8>>, answers: Seq<bool>, c: nat, row: nat)
    requires
        c < m.columns.len(),
        row <= m.columns[c as int].len(),
        offset(m, c) + row <= answers.len(),
        run(m, prev, start(), answers.take(offset(m, c) as int)) == progress_at(m, answers, c, 0),
    ensures
        run(m, prev, start(), answers.take((offset(m, c) + row) as int)) == progress_at(
            m,
            answers,
            c,
            row,
        ),
    decreases row,
{
    let off = offset(m, c) as int;
    if row > 0 {
        let r = (row - 1) as nat;
        lemma_run_in_column(m, prev, answers, c, r);
        assert(answers.take(off + row).drop_last() =~= answers.take(off + r));
        let ids = cell_ids(m.columns[c as int]);
        assert(ids.take(row as int).drop_last() =~= ids.take(r as int));
        assert(answers.subrange(off, off + row).drop_last() =~= answers.subrange(off, off + r));
    }
}

/// Column by column the publication reaches the first cell of each column with
/// the links to the columns before it that were stored.
proof fn lemma_run_to_column(m: MatrixView, prev: Option<Seq<u8>>, answers: Seq<bool>, c: nat)
    requires
        c <= m.columns.len(),
        offset(m, c) <= answers.len(),
        forall|i: nat| i < c ==> (#[trigger] column_block(m, answers, i)) is Some,
    ensures
        run(m, prev, start(), answers.take(offset(m, c) as int)).col == c,
        run(m, prev, start(), answers.take(offset(m, c) as int)).row == 0,
        run(m, prev, start(), answers.take(offset(m, c) as int)).cell_links == Seq::<
            Seq<u8>,
        >::empty(),
        run(m, prev, start(), answers.take(offset(m, c) as int)).col_links == column_links(
            m,
            answers,
            c,
        ),
        run(m, prev, start(), answers.take(offset(m, c) as int)).outcome is None,
    decreases c,
{
    if c > 0 {
        let b = (c - 1) as nat;
        let off = offset(m, b) as int;
        let len = m.columns[b as int].len();
        lemma_run_to_column(m, prev, answers, b);
        lemma_run_in_column(m, prev, answers, b, len);
        let at_last = progress_at(m, answers, b, len);
        assert(cell_ids(m.columns[b as int]).take(len as int) =~= cell_ids(m.columns[b as int]));
        assert(at_last.cell_links == survivors(
            cell_ids(m.columns[b as int]),
            cell_answers(m, answers, b),
        ));
        assert(due_block(m, prev, at_last) == column_block(m, answers, b));
        assert(answers.take(off + len + 1).drop_last() =~= answers.take(off + len));
    }
}

/// How many cells a matrix holds in its first `c` columns.
pub open spec fn cell_count(m: MatrixView, c: nat) -> nat
    decreases c,
{
    if c == 0 {
        0
    } else {
        cell_count(m, (c - 1) as nat) + m.columns[c - 1].len()
    }
}

/// Before column `c`, its cells and one block for each column before it are due.
pub proof fn lemma_offset_counts(m: MatrixView, c: nat)
    ensures
        offset(m, c) == cell_count(m, c) + c,
    decreases c,
{
    if c > 0 {
        lemma_offset_counts(m, (c - 1) as nat);
    }
}

/// The store is offered every cell, one block for each column, and one root.
pub proof fn lemma_attempts_count(m: MatrixView)
    ensures
        attempts(m) == cell_count(m, m.columns.len()) + m.columns.len() + 1,
{
    lemma_offset_counts(m, m.columns.len());
}

/// The blocks come in their order.
///
/// As long as the block of every column before can be made, the block that is
/// due after the answers for the columns before `c` and for `row` cells of
/// column `c` is the cell in that row, and after the last cell of the column
/// the list of the links to its cells that were stored.
pub proof fn lemma_offered_in_order(
    m: MatrixView,
    prev: Option<Seq<u8>>,
    answers: Seq<bool>,
    c: nat,
    row: nat,
)
    requires
        c < m.columns.len(),
        row <= m.columns[c as int].len(),
        answers.len() == attempts(m),
        forall|i: nat| i < c ==> (#[trigger] column_block(m, answers, i)) is Some,
    ensures
        offset(m, c) + row < answers.len(),
        due_block(m, prev, run(m, prev, start(), answers.take((offset(m, c) + row) as int)))
            == if row < m.columns[c as int].len() {
            Some(m.columns[c as int][row as int])
        } else {
            column_block(m, answers, c)
        },
        run(m, prev, start(), answers.take((offset(m, c) + row) as int)).outcome is None,
{
    lemma_offset_grows(m, c + 1, m.columns.len());
    lemma_run_to_column(m, prev, answers, c);
    lemma_run_in_column(m, prev, answers, c, row);
    if row == m.columns[c as int].len() {
        assert(cell_ids(m.columns[c as int]).take(row as int) =~= cell_ids(m.columns[c as int]));
    }
}

/// What a publication comes to.
///
/// Let the store answer for every block that is due, and let the block of every
/// column be made. Then each column holds the links to its cells that were
/// stored, in order; the root holds the links to the columns that were stored,
/// in order, the number of the block and the link to the root before; and the
/// publication ends with the root's identifier where the store took the root,
/// in failure where it refused it or where the root could not be made.
pub proof fn lemma_publication(m: MatrixView, prev: Option<Seq<u8>>, answers: Seq<bool>)
    requires
        answers.len() == attempts(m),
        forall|c: nat| c < m.columns.len() ==> (#[trigger] column_block(m, answers, c)) is Some,
    ensures
        due_block(m, prev, run(m, prev, start(), answers.drop_last())) == root_block(
            m,
            prev,
            answers,
        ),
        run(m, prev, start(), answers.drop_last()).outcome is None,
        action_of(m, prev, run(m, prev, start(), answers)) == match root_block(m, prev, answers) {
            None => ActionView::Failed(PublishError::EncodingFailed),
            Some(root) => if answers.last() {
                ActionView::Done(root.cid)
            } else {
                ActionView::Failed(PublishError::RootNotStored)
            },
        },
{
    lemma_run_to_column(m, prev, answers, m.columns.len());
}

/// Where the store takes every block, nothing is left out.
pub proof fn lemma_survivors_all(links: Seq<Seq<u8>>, answers: Seq<bool>)
    requires
        links.len() == answers.len(),
        forall|i: int| 0 <= i < answers.len() ==> answers[i],
    ensures
        survivors(links, answers) == links,
    decreases links.len(),
{
    if links.len() > 0 {
        lemma_survivors_all(links.drop_last(), answers.drop_last());
    }
}

/// The identifier of the block that lists every cell of column `c`.
pub open spec fn full_column_id(m: MatrixView, c: int) -> Seq<u8> {
    dag_cbor_block(link_list_shape(cell_ids(m.columns[c])))->0.cid
}

/// A publication without failures.
///
/// Where the store takes every block and every block can be made, the store is
/// offered every cell, one block for each column and one root, and no more;
/// each column block lists all cells of its column, the root lists all columns,
/// and its link to the root before is that root, or null where there is none.
/// The publication ends with the identifier of that root.
pub proof fn lemma_publication_without_failures(
    m: MatrixView,
    prev: Option<Seq<u8>>,
    answers: Seq<bool>,
)
    requires
        answers.len() == attempts(m),
        forall|i: int| 0 <= i < answers.len() ==> answers[i],
        forall|c: int|
            0 <= c < m.columns.len() ==> dag_cbor_block(
                link_list_shape(cell_ids(#[trigger] m.columns[c])),
            ) is Some,
        dag_cbor_block(
            root_shape(
                Seq::new(m.columns.len(), |c: int| full_column_id(m, c)),
                m.block_num,
                prev,
            ),
        ) is Some,
    ensures
        action_of(m, prev, run(m, prev, start(), answers)) == ActionView::Done(
            dag_cbor_block(
                root_shape(
                    Seq::new(m.columns.len(), |c: int| full_column_id(m, c)),
                    m.block_num,
                    prev,
                ),
            )->0.cid,
        ),
{
    let n = m.columns.len();
    assert forall|c: nat| c < n implies (#[trigger] column_block(m, answers, c))
        == dag_cbor_block(link_list_shape(cell_ids(m.columns[c as int]))) by {
        lemma_offset_grows(m, c + 1, n);
        lemma_survivors_all(cell_ids(m.columns[c as int]), cell_answers(m, answers, c));
    }
    lemma_all_columns_linked(m, answers, n);
    lemma_publication(m, prev, answers);
}

/// Where the store takes every block, the root lists every column.
proof fn lemma_all_columns_linked(m: MatrixView, answers: Seq<bool>, c: nat)
    requires
        c <= m.columns.len(),
        answers.len() == attempts(m),
        forall|i: int| 0 <= i < answers.len() ==> answers[i],
        forall|i: nat|
            i < m.columns.len() ==> (#[trigger] column_block(m, answers, i)) == dag_cbor_block(
                link_list_shape(cell_ids(m.columns[i as int])),
            ),
    ensures
        column_links(m, answers, c) == Seq::new(c, |i: int| full_column_id(m, i)),
    decreases c,
{
    if c > 0 {
        let b = (c - 1) as nat;
        lemma_all_columns_linked(m, answers, b);
        lemma_offset_grows(m, c, m.columns.len());
        assert(Seq::new(b, |i: int| full_column_id(m, i)).push(full_column_id(m, b as int))
            =~= Seq::new(c, |i: int| full_column_id(m, i)));
    }
}

/// Publishing the same content twice gives the same blocks: what the publisher
/// asks to be stored, and the root it ends with, depend on nothing but what the
/// matrix holds, the root before it, and the answers of the store.
pub proof fn lemma_same_content_same_blocks(
    a: Publisher,
    b: Publisher,
    answers: Seq<bool>,
)
    requires
        a.matrix() == b.matrix(),
        a.prev() == b.prev(),
        a.progress() == b.progress(),
    ensures
        action_of(a.matrix(), a.prev(), run(a.matrix(), a.prev(), a.progress(), answers))
            == action_of(b.matrix(), b.prev(), run(b.matrix(), b.prev(), b.progress(), answers)),
{
}

/// The publication of one matrix.
pub struct Publisher {
    matrix: DataMatrix,
    prev: Option<ContentId>,
    col: usize,
    row: usize,
    cell_links: Vec<ContentId>,
    col_links: Vec<ContentId>,
    outcome: Option<Result<ContentId, PublishError>>,
}

impl Publisher {
    /// The matrix that is being published.
    pub closed spec fn matrix(&self) -> MatrixView {
        self.matrix@
    }

    /// The root of the block before, if there is one.
    pub closed spec fn prev(&self) -> Option<Seq<u8>> {
        optional_id(self.prev)
    }

    /// How far the publication has come.
    pub closed spec fn progress(&self) -> Progress {
        Progress {
            col: self.col as nat,
            row: self.row as nat,
            cell_links: ids(self.cell_links@),
            col_links: ids(self.col_links@),
            outcome: match self.outcome {
                Some(Ok(c)) => Some(Ok(c@)),
                Some(Err(e)) => Some(Err(e)),
                None => None,
            },
        }
    }

    /// The block that is due, made anew.
    fn due(&self) -> (r: Option<EncodedBlock>)
        ensures
            match r {
                Some(b) => due_block(self.matrix(), self.prev(), self.progress()) == Some(b@),
                None => due_block(self.matrix(), self.prev(), self.progress()) is None,
            },
    {
        if self.col < self.matrix.columns.len() {
            let column = &self.matrix.columns[self.col];
            if self.row < column.cells.len() {
                Some(column.cells[self.row].clone())
            } else {
                encode(&link_list_node(&self.cell_links))
            }
        } else {
            encode(&root_node(&self.col_links, self.matrix.block_num, &self.prev))
        }
    }

    /// What the driver has to do next.
    pub fn action(&self) -> (r: Action)
        ensures
            r@ == action_of(self.matrix(), self.prev(), self.progress()),
    {
        match &self.outcome {
            Some(Ok(root)) => Action::Done(root.clone()),
            Some(Err(e)) => Action::Failed(*e),
            None => match self.due() {
                Some(block) => Action::Store(block),
                None => Action::Failed(PublishError::EncodingFailed),
            },
        }
    }

    /// Takes the answer of the store for the cell that was due.
    fn push_cell(&mut self, cell: EncodedBlock, stored: bool)
        requires
            old(self).outcome is None,
            old(self).col < old(self).matrix.columns@.len(),
            old(self).row < old(self).matrix.columns@[old(self).col as int].cells@.len(),
            due_block(old(self).matrix(), old(self).prev(), old(self).progress()) == Some(cell@),
        ensures
            final(self).matrix() == old(self).matrix(),
            final(self).prev() == old(self).prev(),
            final(self).progress() == advance(
                old(self).matrix(),
                old(self).prev(),
                old(self).progress(),
                stored,
            ),
    {
        let ghost before = ids(self.cell_links@);
        let rows: usize = self.matrix.columns[self.col].cells.len();
        assert(self.row < rows);
        if stored {
            self.cell_links.push(cell.cid);
            assert(ids(self.cell_links@) =~= before.push(cell@.cid));
        }
        self.row = self.row + 1;
    }

    /// Takes the answer of the store for the block of the current column.
    fn push_col(&mut self, column: EncodedBlock, stored: bool)
        requires
            old(self).outcome is None,
            old(self).col < old(self).matrix.columns@.len(),
            old(self).row >= old(self).matrix.columns@[old(self).col as int].cells@.len(),
            due_block(old(self).matrix(), old(self).prev(), old(self).progress()) == Some(column@),
        ensures
            final(self).matrix() == old(self).matrix(),
            final(self).prev() == old(self).prev(),
            final(self).progress() == advance(
                old(self).matrix(),
                old(self).prev(),
                old(self).progress(),
                stored,
            ),
    {
        let ghost before = ids(self.col_links@);
        let cols: usize = self.matrix.columns.len();
        assert(self.col < cols);
        if stored {
            self.col_links.push(column.cid);
            assert(ids(self.col_links@) =~= before.push(column@.cid));
        }
        self.col = self.col + 1;
        self.row = 0;
        self.cell_links = Vec::new();
        assert(ids(self.cell_links@) =~= Seq::<Seq<u8>>::empty());
    }

    /// Takes the answer of the store for the root.
    fn push_row(&mut self, root: EncodedBlock, stored: bool)
        requires
            old(self).outcome is None,
            old(self).col >= old(self).matrix.columns@.len(),
            due_block(old(self).matrix(), old(self).prev(), old(self).progress()) == Some(root@),
        ensures
            final(self).matrix() == old(self).matrix(),
            final(self).prev() == old(self).prev(),
            final(self).progress() == advance(
                old(self).matrix(),
                old(self).prev(),
                old(self).progress(),
                stored,
            ),
    {
        if stored {
            self.outcome = Some(Ok(root.cid));
        } else {
            self.outcome = Some(Err(PublishError::RootNotStored));
        }
    }

    /// Takes the answer of the store for the block that was due: `stored` says
    /// whether it was pinned and inserted. Without a block that is due, nothing
    /// changes.
    pub fn step(&mut self, stored: bool)
        ensures
            final(self).matrix() == old(self).matrix(),
            final(self).prev() == old(self).prev(),
            final(self).progress() == advance(
                old(self).matrix(),
                old(self).prev(),
                old(self).progress(),
                stored,
            ),
    {
        if self.outcome.is_some() {
            return ;
        }
        match self.due() {
            None => {},
            Some(block) => {
                if self.col < self.matrix.columns.len() {
                    if self.row < self.matrix.columns[self.col].cells.len() {
                        self.push_cell(block, stored);
                    } else {
                        self.push_col(block, stored);
                    }
                } else {
                    self.push_row(block, stored);
                }
            },
        }
    }
}

/// Begins the publication of `data_matrix`, whose root will link to `latest_cid`.
pub fn push_matrix(data_matrix: DataMatrix, latest_cid: Option<ContentId>) -> (r: Publisher)
    ensures
        r.matrix() == data_matrix@,
        r.prev() == optional_id(latest_cid),
        r.progress() == start(),
{
    let publisher = Publisher {
        matrix: data_matrix,
        prev: latest_cid,
        col: 0,
        row: 0,
        cell_links: Vec::new(),
        col_links: Vec::new(),
        outcome: None,
    };
    assert(publisher.progress().col_links =~= Seq::<Seq<u8>>::empty());
    publisher
}

} // verus!
