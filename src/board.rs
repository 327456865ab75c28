//! The fixed 20 x 10 grid of empty and occupied cells.
use vstd::prelude::*;

verus! {

/// Number of rows of the board.
pub const ROWS: usize = 20;

/// Number of columns of the board.
pub const COLS: usize = 10;

/// The grid; `cells[r][c]` is true when the cell at row `r`, column `c` is occupied.
#[derive(Clone, Copy, Debug, PartialEq, Eq)]
pub struct Board {
    pub cells: [[bool; COLS]; ROWS],
}

impl View for Board {
    type V = Seq<Seq<bool>>;

    open spec fn view(&self) -> Seq<Seq<bool>> {
        self.cells@.map_values(|row: [bool; COLS]| row@)
    }
}

/// A row of the right width with no occupied cell.
pub open spec fn empty_row() -> Seq<bool> {
    Seq::new(COLS as nat, |c: int| false)
}

/// `n` empty rows.
pub open spec fn empty_rows(n: nat) -> Seq<Seq<bool>> {
    Seq::new(n, |i: int| empty_row())
}

/// Every cell of the row is occupied.
pub open spec fn row_full(row: Seq<bool>) -> bool {
    forall|c: int| 0 <= c < row.len() ==> row[c]
}

/// The rows that are not full, in their order.
pub open spec fn kept_rows(rows: Seq<Seq<bool>>) -> Seq<Seq<bool>>
    decreases rows.len(),
{
    if rows.len() == 0 {
        Seq::empty()
    } else if row_full(rows[0]) {
        kept_rows(rows.skip(1))
    } else {
        seq![rows[0]] + kept_rows(rows.skip(1))
    }
}

/// How many rows are full.
pub open spec fn full_count(rows: Seq<Seq<bool>>) -> nat {
    (rows.len() - kept_rows(rows).len()) as nat
}

/// The grid once every full row is removed and as many empty rows are
/// inserted at the top.
pub open spec fn collapsed(rows: Seq<Seq<bool>>) -> Seq<Seq<bool>> {
    empty_rows(full_count(rows)) + kept_rows(rows)
}

/// The grid has the board's dimensions.
pub open spec fn grid_wf(rows: Seq<Seq<bool>>) -> bool {
    &&& rows.len() == ROWS
    &&& forall|r: int| 0 <= r < ROWS ==> (#[trigger] rows[r]).len() == COLS
}

pub proof fn lemma_kept_len(rows: Seq<Seq<bool>>)
    ensures
        kept_rows(rows).len() <= rows.len(),
    decreases rows.len(),
{
    if rows.len() > 0 {
        lemma_kept_len(rows.skip(1));
    }
}

/// A board's view always has its dimensions.
pub proof fn lemma_board_wf(b: Board)
    ensures
        grid_wf(b@),
{
    assert forall|r: int| 0 <= r < ROWS implies (#[trigger] b@[r]).len() == COLS by {
        assert(b@[r] == b.cells@[r]@);
    }
}

impl Board {
    /// A board with every cell empty.
    pub fn new() -> (b: Board)
        ensures
            b@ == empty_rows(ROWS as nat),
    {
        let b = Board { cells: [[false; COLS]; ROWS] };
        assert(b@ =~= empty_rows(ROWS as nat)) by {
            assert forall|r: int| 0 <= r < ROWS implies b@[r] == empty_rows(ROWS as nat)[r] by {
                assert(b@[r] =~= empty_row());
            }
        }
        b
    }

    /// Whether a cell is occupied; a cell outside the grid reads as not occupied.
    pub fn is_occupied(&self, row: usize, col: usize) -> (r: bool)
        ensures
            r == (row < ROWS && col < COLS && self@[row as int][col as int]),
    {
        if row < ROWS && col < COLS {
            self.cells[row][col]
        } else {
            false
        }
    }

    /// Marks a cell occupied.
    pub fn set_occupied(&mut self, row: usize, col: usize)
        requires
            row < ROWS,
            col < COLS,
        ensures
            final(self)@ == old(self)@.update(row as int, old(self)@[row as int].update(col as int, true)),
    {
        let mut line = self.cells[row];
        line[col] = true;
        self.cells[row] = line;
        assert(self@ =~= old(self)@.update(row as int, old(self)@[row as int].update(col as int, true)));
    }

    /// Whether every cell of row `row` is occupied.
    pub fn row_is_full(&self, row: usize) -> (r: bool)
        requires
            row < ROWS,
        ensures
            r == row_full(self@[row as int]),
    {
        let line = self.cells[row];
        assert(self@[row as int] == line@);
        let mut c: usize = 0;
        while c < COLS
            invariant
                c <= COLS,
                row < ROWS,
                line == self.cells@[row as int],
                forall|j: int| 0 <= j < c ==> line@[j],
            decreases COLS - c,
        {
            if !line[c] {
                assert(!self@[row as int][c as int]);
                return false;
            }
            c += 1;
        }
        true
    }

    /// Removes row `row`: the rows above it move down by one and an empty
    /// row comes in at the top.
    pub fn remove_row(&mut self, row: usize)
        requires
            row < ROWS,
        ensures
            final(self)@ == seq![empty_row()] + old(self)@.subrange(0, row as int)
                + old(self)@.subrange(row as int + 1, ROWS as int),
    {
        let ghost before = self@;
        let ghost cells = self.cells@;
        let mut rr: usize = row;
        while rr > 0
            invariant
                rr <= row < ROWS,
                self.cells@.len() == ROWS,
                forall|i: int| 0 <= i <= rr ==> #[trigger] self.cells@[i] == cells[i],
                forall|i: int| rr < i <= row ==> #[trigger] self.cells@[i] == cells[i - 1],
                forall|i: int| row < i < ROWS ==> #[trigger] self.cells@[i] == cells[i],
            decreases rr,
        {
            self.cells[rr] = self.cells[rr - 1];
            rr -= 1;
        }
        self.cells[0] = [false; COLS];
        let ghost after = seq![empty_row()] + before.subrange(0, row as int)
            + before.subrange(row as int + 1, ROWS as int);
        assert forall|i: int| 0 <= i < ROWS implies #[trigger] self@[i] == after[i] by {
            if i == 0 {
                assert(self@[0] =~= empty_row());
            } else if i <= row {
                assert(self@[i] == cells[i - 1]@);
            } else {
                assert(self@[i] == cells[i]@);
            }
        }
        assert(self@ =~= after);
    }

    /// Removes every full row, shifting the rows above each down and inserting
    /// an empty row at the top for each; returns how many rows were removed.
    pub fn clear_full_rows(&mut self) -> (n: usize)
        ensures
            final(self)@ == collapsed(old(self)@),
            n == full_count(old(self)@),
            n <= ROWS,
    {
        let ghost orig = self@;
        proof {
            lemma_kept_len(orig);
        }
        let mut i: usize = ROWS;
        let mut k: usize = 0;
        while i > k
            invariant
                k <= i <= ROWS,
                self@.len() == ROWS,
                orig.len() == ROWS,
                self@.subrange(0, i as int) == empty_rows(k as nat) + orig.subrange(0, i - k),
                self@.subrange(i as int, ROWS as int) == kept_rows(orig.subrange(i - k, ROWS as int)),
            decreases 2 * i - k,
        {
            let r = i - 1;
            let ghost cur = self@;
            let ghost tail = orig.subrange(i - k - 1, ROWS as int);
            assert(tail.skip(1) =~= orig.subrange(i - k, ROWS as int));
            assert(cur[r as int] == orig[i - k - 1]) by {
                assert(cur[r as int] == cur.subrange(0, i as int)[r as int]);
            }
            assert(tail[0] == orig[i - k - 1]);
            if self.row_is_full(r) {
                self.remove_row(r);
                k += 1;
                assert(self@.subrange(0, i as int) =~= empty_rows(k as nat) + orig.subrange(0, i - k)) by {
                    assert forall|j: int| 1 <= j < i implies #[trigger] self@[j] == cur.subrange(0, i as int)[j - 1] by {
                        assert(self@[j] == cur[j - 1]);
                    }
                }
                assert(self@.subrange(i as int, ROWS as int) =~= cur.subrange(i as int, ROWS as int));
            } else {
                i -= 1;
                assert(self@.subrange(0, i as int) =~= cur.subrange(0, i + 1).subrange(0, i as int));
                assert(self@.subrange(0, i as int) =~= empty_rows(k as nat) + orig.subrange(0, i - k));
                assert(self@.subrange(i as int, ROWS as int) =~= seq![cur[i as int]] + cur.subrange(i + 1, ROWS as int));
            }
        }
        assert(orig.subrange(0, ROWS as int) =~= orig);
        assert(self@ =~= self@.subrange(0, i as int) + self@.subrange(i as int, ROWS as int));
        assert(orig.subrange(0, 0) =~= Seq::<Seq<bool>>::empty());
        assert(empty_rows(k as nat) + Seq::<Seq<bool>>::empty() =~= empty_rows(k as nat));
        k
    }
}

/// Without a full row, every row is kept.
pub proof fn lemma_kept_none_full(rows: Seq<Seq<bool>>)
    requires
        forall|i: int| 0 <= i < rows.len() ==> !row_full(#[trigger] rows[i]),
    ensures
        kept_rows(rows) == rows,
    decreases rows.len(),
{
    if rows.len() > 0 {
        assert(!row_full(rows[0]));
        assert forall|i: int| 0 <= i < rows.skip(1).len() implies !row_full(#[trigger] rows.skip(1)[i]) by {
            assert(rows.skip(1)[i] == rows[i + 1]);
        }
        lemma_kept_none_full(rows.skip(1));
        assert(seq![rows[0]] + rows.skip(1) =~= rows);
    }
}

/// With exactly one full row, at `r0`, the kept rows are the others.
pub proof fn lemma_kept_one_full(rows: Seq<Seq<bool>>, r0: int)
    requires
        0 <= r0 < rows.len(),
        row_full(rows[r0]),
        forall|i: int| 0 <= i < rows.len() && i != r0 ==> !row_full(#[trigger] rows[i]),
    ensures
        kept_rows(rows) == rows.subrange(0, r0) + rows.subrange(r0 + 1, rows.len() as int),
    decreases rows.len(),
{
    let rest = rows.skip(1);
    if r0 == 0 {
        assert forall|i: int| 0 <= i < rest.len() implies !row_full(#[trigger] rest[i]) by {
            assert(rest[i] == rows[i + 1]);
        }
        lemma_kept_none_full(rest);
        assert(rows.subrange(0, 0) + rows.subrange(1, rows.len() as int) =~= rest);
    } else {
        assert(!row_full(rows[0]));
        assert forall|i: int| 0 <= i < rest.len() && i != r0 - 1 implies !row_full(#[trigger] rest[i]) by {
            assert(rest[i] == rows[i + 1]);
        }
        assert(rest[r0 - 1] == rows[r0]);
        lemma_kept_one_full(rest, r0 - 1);
        assert(seq![rows[0]] + (rest.subrange(0, r0 - 1) + rest.subrange(r0, rest.len() as int))
            =~= rows.subrange(0, r0) + rows.subrange(r0 + 1, rows.len() as int));
    }
}

/// No kept row is full.
pub proof fn lemma_kept_not_full(rows: Seq<Seq<bool>>)
    ensures
        forall|i: int| 0 <= i < kept_rows(rows).len() ==> !row_full(#[trigger] kept_rows(rows)[i]),
    decreases rows.len(),
{
    if rows.len() > 0 {
        lemma_kept_not_full(rows.skip(1));
        let k = kept_rows(rows.skip(1));
        if !row_full(rows[0]) {
            assert forall|i: int| 0 <= i < kept_rows(rows).len() implies !row_full(#[trigger] kept_rows(rows)[i]) by {
                if i > 0 {
                    assert(kept_rows(rows)[i] == k[i - 1]);
                }
            }
        }
    }
}

/// Collapsing a grid with exactly one full row, at `r0`, removes that row,
/// moves the rows above it down by one and puts an empty row on top.
pub proof fn collapse_one_full_row(rows: Seq<Seq<bool>>, r0: int)
    requires
        grid_wf(rows),
        0 <= r0 < ROWS,
        row_full(rows[r0]),
        forall|i: int| 0 <= i < ROWS && i != r0 ==> !row_full(#[trigger] rows[i]),
    ensures
        full_count(rows) == 1,
        collapsed(rows) == seq![empty_row()] + rows.subrange(0, r0) + rows.subrange(r0 + 1, ROWS as int),
{
    lemma_kept_one_full(rows, r0);
    assert(empty_rows(1) =~= seq![empty_row()]);
    assert(seq![empty_row()] + (rows.subrange(0, r0) + rows.subrange(r0 + 1, ROWS as int))
        =~= seq![empty_row()] + rows.subrange(0, r0) + rows.subrange(r0 + 1, ROWS as int));
}

/// Collapsing a grid with no full row changes nothing.
pub proof fn collapse_no_full_row(rows: Seq<Seq<bool>>)
    requires
        forall|i: int| 0 <= i < rows.len() ==> !row_full(#[trigger] rows[i]),
    ensures
        full_count(rows) == 0,
        collapsed(rows) == rows,
{
    lemma_kept_none_full(rows);
    assert(empty_rows(0) + rows =~= rows);
}

/// Collapsing twice is collapsing once: the second pass finds no full row.
pub proof fn collapse_idempotent(rows: Seq<Seq<bool>>)
    ensures
        full_count(collapsed(rows)) == 0,
        collapsed(collapsed(rows)) == collapsed(rows),
{
    let once = collapsed(rows);
    let n = full_count(rows);
    lemma_kept_not_full(rows);
    assert forall|i: int| 0 <= i < once.len() implies !row_full(#[trigger] once[i]) by {
        if i < n {
            assert(once[i] == empty_row());
            assert(!empty_row()[0]);
        } else {
            assert(once[i] == kept_rows(rows)[i - n]);
        }
    }
    collapse_no_full_row(once);
}

} // verus!
