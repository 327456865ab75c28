//! The game state: the falling piece, placement, moves, rotation, settling
//! and scoring.
use vstd::prelude::*;

verus! {

use crate::board::{
    collapse_no_full_row, collapse_one_full_row, collapsed, empty_row, empty_rows, full_count,
    grid_wf, lemma_board_wf, row_full, Board, COLS, ROWS,
};
use crate::piece::{
    block_index, catalog_wf, cells_of, lemma_offsets_shape, num_rotations, small_offsets,
    spec_block_index, Block, BlockType,
};

/// Row of the anchor of a freshly spawned piece.
pub const SPAWN_ROW: i32 = 0;

/// Column of the anchor of a freshly spawned piece.
pub const SPAWN_COL: i32 = 3;

/// Points for each collapsed row.
pub const POINTS_PER_ROW: u32 = 10;

/// The board, the falling piece (shape, rotation index and anchor) and the score.
#[derive(Clone, Copy, Debug)]
pub struct Game {
    pub board: Board,
    pub falling_block: BlockType,
    pub rotation: usize,
    pub row: i32,
    pub col: i32,
    pub score: u32,
}

/// Every cell `anchor + offset` lies on the grid and is empty.
pub open spec fn can_place(board: Seq<Seq<bool>>, cells: Seq<(i32, i32)>, row: int, col: int) -> bool {
    forall|i: int|
        0 <= i < cells.len() ==> {
            let r = row + (#[trigger] cells[i]).0;
            let c = col + cells[i].1;
            0 <= r < ROWS && 0 <= c < COLS && !board[r][c]
        }
}

/// The falling piece of `g` fits with rotation `rot` at anchor (`row`, `col`).
pub open spec fn fits(g: Game, rot: int, row: int, col: int) -> bool {
    can_place(g.board@, cells_of(g.falling_block, rot), row, col)
}

/// The state after trying to shift the piece by `dr` rows and `dc` columns.
pub open spec fn moved(g: Game, dc: int, dr: int) -> Game {
    if fits(g, g.rotation as int, g.row + dr, g.col + dc) {
        Game { row: (g.row + dr) as i32, col: (g.col + dc) as i32, ..g }
    } else {
        g
    }
}

/// The rotation index that follows the current one, wrapping around.
pub open spec fn next_rotation_index(g: Game) -> int {
    let n = num_rotations(g.falling_block) as int;
    (g.rotation as int % n + 1) % n
}

/// The state after trying to rotate: in place, else one column left, else
/// one column right; unchanged if none fits.
#[verifier::opaque]
pub open spec fn rotated(g: Game) -> Game {
    let k = next_rotation_index(g);
    if fits(g, k, g.row as int, g.col as int) {
        Game { rotation: k as usize, ..g }
    } else if fits(g, k, g.row as int, g.col - 1) {
        Game { rotation: k as usize, col: (g.col - 1) as i32, ..g }
    } else if fits(g, k, g.row as int, g.col + 1) {
        Game { rotation: k as usize, col: (g.col + 1) as i32, ..g }
    } else {
        g
    }
}

/// One of the first `n` cells, placed at the anchor, lands on (`r`, `c`).
pub open spec fn hits(cells: Seq<(i32, i32)>, n: int, row: int, col: int, r: int, c: int) -> bool {
    exists|j: int| 0 <= j < n && row + (#[trigger] cells[j]).0 == r && col + cells[j].1 == c
}

/// The grid with the piece's cells that lie on it marked occupied.
pub open spec fn settled(board: Seq<Seq<bool>>, cells: Seq<(i32, i32)>, row: int, col: int) -> Seq<Seq<bool>> {
    Seq::new(
        ROWS as nat,
        |r: int| Seq::new(COLS as nat, |c: int| board[r][c] || hits(cells, 4, row, col, r, c)),
    )
}

/// The score after `n` collapsed rows; it stops at the largest `u32`.
pub open spec fn add_points(score: u32, n: nat) -> u32 {
    if score + POINTS_PER_ROW * n <= u32::MAX {
        (score + POINTS_PER_ROW * n) as u32
    } else {
        u32::MAX
    }
}

/// The falling piece and the score are the same in both states.
pub open spec fn same_piece(a: Game, b: Game) -> bool {
    &&& a.falling_block == b.falling_block
    &&& a.rotation == b.rotation
    &&& a.row == b.row
    &&& a.col == b.col
    &&& a.score == b.score
}

/// A piece that fits has its anchor within [-3, 19] x [-3, 9].
pub proof fn lemma_fits_bounds(g: Game, rot: int, row: int, col: int)
    requires
        rot >= 0,
        fits(g, rot, row, col),
    ensures
        -3 <= row < ROWS,
        -3 <= col < COLS,
{
    let t = g.falling_block;
    lemma_offsets_shape(t, rot % (num_rotations(t) as int));
    let cells = cells_of(t, rot);
    assert(small_offsets(cells));
    assert(0 <= row + cells[0].0 < ROWS);
}

/// Whether the falling piece of `game`, with rotation index `rotation`, fits at
/// anchor (`row`, `col`).
pub fn is_drawable(game: &Game, blocks: &[Block], row: i32, col: i32, rotation: usize) -> (r: bool)
    requires
        catalog_wf(blocks@),
    ensures
        r == fits(*game, rotation as int, row as int, col as int),
{
    let idx = block_index(game.falling_block);
    assert(blocks@[spec_block_index(game.falling_block)].holds_shape(game.falling_block));
    let cells = blocks[idx].get_cells(rotation);
    let ghost spec_cells = cells_of(game.falling_block, rotation as int);
    assert(cells@ == spec_cells);
    proof {
        lemma_board_wf(game.board);
    }
    let mut i: usize = 0;
    while i < 4
        invariant
            i <= 4,
            cells@ == spec_cells,
            spec_cells == cells_of(game.falling_block, rotation as int),
            spec_cells.len() == 4,
            grid_wf(game.board@),
            forall|j: int|
                0 <= j < i ==> {
                    let r = row + (#[trigger] spec_cells[j]).0;
                    let c = col + spec_cells[j].1;
                    0 <= r < ROWS && 0 <= c < COLS && !game.board@[r][c]
                },
        decreases 4 - i,
    {
        let (dr, dc) = cells[i];
        let r = row as i64 + dr as i64;
        let c = col as i64 + dc as i64;
        if r < 0 || r >= ROWS as i64 || c < 0 || c >= COLS as i64 {
            assert(!can_place(game.board@, spec_cells, row as int, col as int)) by {
                assert(spec_cells[i as int] == (dr, dc));
            }
            return false;
        }
        if game.board.is_occupied(r as usize, c as usize) {
            assert(!can_place(game.board@, spec_cells, row as int, col as int)) by {
                assert(spec_cells[i as int] == (dr, dc));
            }
            return false;
        }
        i += 1;
    }
    true
}

/// Shifts the piece by `dc` columns and `dr` rows if it fits there; returns
/// whether it moved.
pub fn try_move(game: &mut Game, blocks: &[Block], dc: i32, dr: i32) -> (r: bool)
    requires
        catalog_wf(blocks@),
    ensures
        r == fits(*old(game), old(game).rotation as int, old(game).row + dr, old(game).col + dc),
        *final(game) == moved(*old(game), dc as int, dr as int),
{
    let new_row = match game.row.checked_add(dr) {
        Some(v) => v,
        None => {
            proof {
                if fits(*game, game.rotation as int, game.row + dr, game.col + dc) {
                    lemma_fits_bounds(*game, game.rotation as int, game.row + dr, game.col + dc);
                }
            }
            return false;
        },
    };
    let new_col = match game.col.checked_add(dc) {
        Some(v) => v,
        None => {
            proof {
                if fits(*game, game.rotation as int, game.row + dr, game.col + dc) {
                    lemma_fits_bounds(*game, game.rotation as int, game.row + dr, game.col + dc);
                }
            }
            return false;
        },
    };
    if is_drawable(game, blocks, new_row, new_col, game.rotation) {
        game.row = new_row;
        game.col = new_col;
        true
    } else {
        false
    }
}

/// Rotates the piece to its next rotation state, trying in place, then one
/// column left, then one column right; leaves it as it is if none fits.
pub fn rotate_block(game: &mut Game, blocks: &[Block])
    requires
        catalog_wf(blocks@),
    ensures
        *final(game) == rotated(*old(game)),
{
    proof {
        reveal(rotated);
    }
    let idx = block_index(game.falling_block);
    assert(blocks@[spec_block_index(game.falling_block)].holds_shape(game.falling_block));
    let n = blocks[idx].rotations.len();
    let next_rotation = (game.rotation % n + 1) % n;
    assert(next_rotation as int == next_rotation_index(*game));
    // Try rotation in place
    if is_drawable(game, blocks, game.row, game.col, next_rotation) {
        game.rotation = next_rotation;
        return;
    }
    // Wall kick left
    match game.col.checked_sub(1) {
        Some(c) => {
            if is_drawable(game, blocks, game.row, c, next_rotation) {
                game.col = c;
                game.rotation = next_rotation;
                return;
            }
        },
        None => {
            proof {
                if fits(*game, next_rotation as int, game.row as int, game.col - 1) {
                    lemma_fits_bounds(*game, next_rotation as int, game.row as int, game.col - 1);
                }
            }
        },
    }
    // Wall kick right
    match game.col.checked_add(1) {
        Some(c) => {
            if is_drawable(game, blocks, game.row, c, next_rotation) {
                game.col = c;
                game.rotation = next_rotation;
            }
        },
        None => {
            proof {
                if fits(*game, next_rotation as int, game.row as int, game.col + 1) {
                    lemma_fits_bounds(*game, next_rotation as int, game.row as int, game.col + 1);
                }
            }
        },
    }
}

/// Writes the cells of the falling piece that lie on the grid into the board
/// as occupied.
pub fn settle_block(game: &mut Game, blocks: &[Block])
    requires
        catalog_wf(blocks@),
    ensures
        final(game).board@ == settled(
            old(game).board@,
            cells_of(old(game).falling_block, old(game).rotation as int),
            old(game).row as int,
            old(game).col as int,
        ),
        same_piece(*final(game), *old(game)),
{
    let idx = block_index(game.falling_block);
    assert(blocks@[spec_block_index(game.falling_block)].holds_shape(game.falling_block));
    let cells = *blocks[idx].get_cells(game.rotation);
    let ghost spec_cells = cells_of(game.falling_block, game.rotation as int);
    let ghost orig = game.board@;
    let ghost start = *game;
    assert(cells@ == spec_cells);
    proof {
        lemma_board_wf(game.board);
    }
    let row = game.row;
    let col = game.col;
    let mut i: usize = 0;
    while i < 4
        invariant
            i <= 4,
            cells@ == spec_cells,
            spec_cells.len() == 4,
            row == start.row,
            col == start.col,
            same_piece(*game, start),
            grid_wf(orig),
            grid_wf(game.board@),
            forall|r: int, c: int|
                0 <= r < ROWS && 0 <= c < COLS ==> #[trigger] game.board@[r][c] == (orig[r][c]
                    || hits(spec_cells, i as int, row as int, col as int, r, c)),
        decreases 4 - i,
    {
        let (dr, dc) = cells[i];
        let r = row as i64 + dr as i64;
        let c = col as i64 + dc as i64;
        let ghost before = game.board@;
        if r >= 0 && r < ROWS as i64 && c >= 0 && c < COLS as i64 {
            game.board.set_occupied(r as usize, c as usize);
        }
        proof {
            lemma_board_wf(game.board);
            assert(spec_cells[i as int] == (dr, dc));
            assert forall|rr: int, cc: int| 0 <= rr < ROWS && 0 <= cc < COLS implies #[trigger] game.board@[rr][cc]
                == (orig[rr][cc] || hits(spec_cells, i + 1, row as int, col as int, rr, cc)) by {
                if hits(spec_cells, i + 1, row as int, col as int, rr, cc) {
                    let j = choose|j: int| 0 <= j < i + 1 && row + (#[trigger] spec_cells[j]).0 == rr && col + spec_cells[j].1 == cc;
                    if j < i {
                        assert(hits(spec_cells, i as int, row as int, col as int, rr, cc));
                    }
                }
                if hits(spec_cells, i as int, row as int, col as int, rr, cc) {
                    let j = choose|j: int| 0 <= j < i && row + (#[trigger] spec_cells[j]).0 == rr && col + spec_cells[j].1 == cc;
                    assert(0 <= j < i + 1);
                }
                if rr == r && cc == c {
                    assert(row + spec_cells[i as int].0 == rr && col + spec_cells[i as int].1 == cc);
                }
            }
        }
        i += 1;
    }
    let ghost goal = settled(orig, spec_cells, row as int, col as int);
    assert forall|r: int| 0 <= r < ROWS implies #[trigger] game.board@[r] == goal[r] by {
        assert(game.board@[r] =~= goal[r]);
    }
    assert(game.board@ =~= goal);
}

/// Removes the full rows of the board and adds ten points for each; returns
/// how many rows were removed.
pub fn collapse_rows(game: &mut Game) -> (n: usize)
    ensures
        n == full_count(old(game).board@),
        final(game).board@ == collapsed(old(game).board@),
        final(game).score == add_points(old(game).score, n as nat),
        final(game).falling_block == old(game).falling_block,
        final(game).rotation == old(game).rotation,
        final(game).row == old(game).row,
        final(game).col == old(game).col,
{
    let n = game.board.clear_full_rows();
    game.score = game.score.saturating_add(POINTS_PER_ROW * (n as u32));
    n
}

/// The state with a new piece of shape `t` at rotation 0 and the spawn anchor.
pub open spec fn spawned(g: Game, t: BlockType) -> Game {
    Game { falling_block: t, rotation: 0, row: SPAWN_ROW, col: SPAWN_COL, ..g }
}

/// Puts a new piece of shape `block` at rotation 0 and the spawn anchor;
/// returns whether it fits there (if not, the game is over).
pub fn spawn_block(game: &mut Game, blocks: &[Block], block: BlockType) -> (r: bool)
    requires
        catalog_wf(blocks@),
    ensures
        *final(game) == spawned(*old(game), block),
        r == fits(*final(game), 0, SPAWN_ROW as int, SPAWN_COL as int),
{
    game.falling_block = block;
    game.rotation = 0;
    game.row = SPAWN_ROW;
    game.col = SPAWN_COL;
    is_drawable(game, blocks, SPAWN_ROW, SPAWN_COL, 0)
}

/// On an empty board every shape fits at the spawn anchor with rotation 0.
pub proof fn lemma_spawn_fits_empty(g: Game)
    requires
        g.board@ == empty_rows(ROWS as nat),
    ensures
        fits(g, 0, SPAWN_ROW as int, SPAWN_COL as int),
{
    let t = g.falling_block;
    lemma_offsets_shape(t, 0);
    let cells = cells_of(t, 0);
    assert(small_offsets(cells));
}

impl Game {
    /// A game on an empty board, with score 0 and a piece of shape `first`
    /// at rotation 0 and the spawn anchor.
    pub fn new(first: BlockType) -> (g: Game)
        ensures
            g.board@ == empty_rows(ROWS as nat),
            g.falling_block == first,
            g.rotation == 0,
            g.row == SPAWN_ROW,
            g.col == SPAWN_COL,
            g.score == 0,
            fits(g, 0, SPAWN_ROW as int, SPAWN_COL as int),
    {
        let g = Game {
            board: Board::new(),
            falling_block: first,
            rotation: 0,
            row: SPAWN_ROW,
            col: SPAWN_COL,
            score: 0,
        };
        proof {
            lemma_spawn_fits_empty(g);
        }
        g
    }
}

/// Collapsing rows on a board with exactly one full row, at `r0`, removes
/// that row, moves the rows above it down by one, inserts an empty top row
/// and adds exactly ten points; on a board without a full row, board and
/// score stay as they are.
pub proof fn collapse_rows_scoring(g: Game, r0: int)
    requires
        g.score + POINTS_PER_ROW <= u32::MAX,
    ensures
        0 <= r0 < ROWS && row_full(g.board@[r0]) && (forall|i: int|
            0 <= i < ROWS && i != r0 ==> !row_full(#[trigger] g.board@[i])) ==> {
            &&& full_count(g.board@) == 1
            &&& collapsed(g.board@) == seq![empty_row()] + g.board@.subrange(0, r0)
                + g.board@.subrange(r0 + 1, ROWS as int)
            &&& add_points(g.score, full_count(g.board@)) == g.score + POINTS_PER_ROW
        },
        (forall|i: int| 0 <= i < ROWS ==> !row_full(#[trigger] g.board@[i])) ==> {
            &&& full_count(g.board@) == 0
            &&& collapsed(g.board@) == g.board@
            &&& add_points(g.score, full_count(g.board@)) == g.score
        },
{
    lemma_board_wf(g.board);
    if 0 <= r0 < ROWS && row_full(g.board@[r0]) && (forall|i: int|
        0 <= i < ROWS && i != r0 ==> !row_full(#[trigger] g.board@[i])) {
        collapse_one_full_row(g.board@, r0);
    }
    if forall|i: int| 0 <= i < ROWS ==> !row_full(#[trigger] g.board@[i]) {
        collapse_no_full_row(g.board@);
    }
}

/// Moving the piece sideways by one column and back, where both moves are
/// legal, restores the state.
pub proof fn move_round_trip(g: Game, dc: int)
    requires
        dc == 1 || dc == -1,
        fits(g, g.rotation as int, g.row as int, g.col + dc),
        fits(g, g.rotation as int, g.row as int, g.col as int),
    ensures
        moved(moved(g, dc, 0), -dc, 0) == g,
{
    let h = moved(g, dc, 0);
    lemma_fits_bounds(g, g.rotation as int, g.row as int, g.col + dc);
    assert(h.col == g.col + dc);
    assert(fits(h, h.rotation as int, h.row + 0, h.col + -dc));
}

/// The rotation attempt succeeds, in place or with a wall kick.
pub open spec fn can_rotate(g: Game) -> bool {
    rotated(g) != g
}

/// The rotation attempt succeeds in place, without a wall kick.
pub open spec fn rotates_in_place(g: Game) -> bool {
    fits(g, next_rotation_index(g), g.row as int, g.col as int)
}

/// A successful rotation of a four-state piece advances the index by one
/// and keeps board, shape, row and score; without a wall kick it keeps the
/// column too.
proof fn lemma_rotate_step(g: Game)
    requires
        num_rotations(g.falling_block) == 4,
        g.rotation < 4,
        can_rotate(g),
    ensures
        rotated(g).rotation == (g.rotation + 1) % 4,
        rotated(g).board == g.board,
        rotated(g).falling_block == g.falling_block,
        rotated(g).row == g.row,
        rotated(g).score == g.score,
        rotates_in_place(g) ==> rotated(g).col == g.col,
{
    reveal(rotated);
}

/// Four rotations of a four-state piece, each of which succeeds, bring back
/// the rotation index; when none of them needed a wall kick, they bring back
/// the whole state.
pub proof fn rotate_four_times(g: Game)
    requires
        num_rotations(g.falling_block) == 4,
        g.rotation < 4,
        can_rotate(g),
        can_rotate(rotated(g)),
        can_rotate(rotated(rotated(g))),
        can_rotate(rotated(rotated(rotated(g)))),
    ensures
        rotated(rotated(rotated(rotated(g)))).rotation == g.rotation,
        rotates_in_place(g) && rotates_in_place(rotated(g)) && rotates_in_place(rotated(rotated(g)))
            && rotates_in_place(rotated(rotated(rotated(g)))) ==> rotated(rotated(rotated(rotated(g)))) == g,
{
    let g1 = rotated(g);
    let g2 = rotated(g1);
    let g3 = rotated(g2);
    lemma_rotate_step(g);
    lemma_rotate_step(g1);
    lemma_rotate_step(g2);
    lemma_rotate_step(g3);
}

} // verus!
