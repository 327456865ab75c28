use tetris::{
    apply_input, block_from_index, block_index, collapse_rows, fall_step, falling_cells,
    init_blocks, is_drawable, random_block, rotate_block, settle_block, spawn_block, try_move,
    Block, BlockType, Board, Controller, Game, Input, COLS, ROWS,
};

const ALL: [BlockType; 5] = [BlockType::T, BlockType::L, BlockType::S, BlockType::Z, BlockType::I];

fn game_with(t: BlockType, rotation: usize, row: i32, col: i32) -> Game {
    let mut g = Game::new(t);
    g.rotation = rotation;
    g.row = row;
    g.col = col;
    g
}

fn fill_row(b: &mut Board, row: usize) {
    for c in 0..COLS {
        b.set_occupied(row, c);
    }
}

fn blocks() -> Vec<Block> {
    init_blocks()
}

#[test]
fn catalog_has_expected_rotation_counts() {
    let blocks = blocks();
    assert_eq!(blocks.len(), 5);
    assert_eq!(blocks[block_index(BlockType::T)].rotations.len(), 4);
    assert_eq!(blocks[block_index(BlockType::L)].rotations.len(), 4);
    assert_eq!(blocks[block_index(BlockType::S)].rotations.len(), 2);
    assert_eq!(blocks[block_index(BlockType::Z)].rotations.len(), 2);
    assert_eq!(blocks[block_index(BlockType::I)].rotations.len(), 2);
}

#[test]
fn catalog_exact_offsets() {
    let blocks = blocks();
    assert_eq!(*blocks[0].get_cells(0), [(0, 1), (1, 0), (1, 1), (1, 2)]);
    assert_eq!(*blocks[1].get_cells(1), [(0, 1), (0, 2), (1, 1), (2, 1)]);
    assert_eq!(*blocks[2].get_cells(0), [(0, 1), (0, 2), (1, 0), (1, 1)]);
    assert_eq!(*blocks[3].get_cells(1), [(0, 1), (1, 0), (1, 1), (2, 0)]);
    assert_eq!(*blocks[4].get_cells(1), [(0, 0), (0, 1), (0, 2), (0, 3)]);
}

#[test]
fn get_cells_wraps_around() {
    let blocks = blocks();
    assert_eq!(blocks[0].get_cells(5), blocks[0].get_cells(1));
    assert_eq!(blocks[2].get_cells(3), blocks[2].get_cells(1));
    assert_eq!(blocks[4].get_cells(usize::MAX), blocks[4].get_cells(1));
}

#[test]
fn get_cells_four_distinct_for_all() {
    let blocks = blocks();
    for b in &blocks {
        for rot in 0..8usize {
            let cells = b.get_cells(rot);
            for i in 0..4 {
                for j in (i + 1)..4 {
                    assert_ne!(cells[i], cells[j]);
                }
            }
        }
    }
}

#[test]
fn block_index_round_trip() {
    for (i, t) in ALL.iter().enumerate() {
        assert_eq!(block_index(*t), i);
        assert_eq!(block_from_index(i), *t);
    }
    assert_eq!(block_from_index(9), BlockType::I);
}

#[test]
fn random_block_is_in_catalog() {
    for _ in 0..50 {
        assert!(block_index(random_block()) < 5);
    }
}

#[test]
fn spawn_t_on_empty_board_fits() {
    let blocks = blocks();
    let g = Game::new(BlockType::T);
    assert!(is_drawable(&g, &blocks, 0, 3, 0));
    assert_eq!(g.row, 0);
    assert_eq!(g.col, 3);
    assert_eq!(g.score, 0);
}

#[test]
fn can_place_out_of_bounds_and_occupied() {
    let blocks = blocks();
    let mut g = Game::new(BlockType::I);
    // vertical I: four rows starting at the anchor
    assert!(is_drawable(&g, &blocks, 16, 0, 0));
    assert!(!is_drawable(&g, &blocks, 17, 0, 0));
    assert!(!is_drawable(&g, &blocks, -1, 0, 0));
    assert!(!is_drawable(&g, &blocks, 0, -1, 0));
    assert!(!is_drawable(&g, &blocks, 0, 10, 0));
    // horizontal I
    assert!(is_drawable(&g, &blocks, 0, 6, 1));
    assert!(!is_drawable(&g, &blocks, 0, 7, 1));
    assert!(!is_drawable(&g, &blocks, i32::MAX, i32::MAX, 1));
    g.board.set_occupied(10, 4);
    assert!(!is_drawable(&g, &blocks, 7, 4, 0));
    assert!(is_drawable(&g, &blocks, 6, 4, 0));
}

#[test]
fn move_left_then_right_round_trip() {
    let blocks = blocks();
    let mut g = game_with(BlockType::T, 0, 5, 4);
    assert!(try_move(&mut g, &blocks, -1, 0));
    assert_eq!((g.row, g.col), (5, 3));
    assert!(try_move(&mut g, &blocks, 1, 0));
    assert_eq!((g.row, g.col), (5, 4));
    assert!(try_move(&mut g, &blocks, 1, 0));
    assert!(try_move(&mut g, &blocks, -1, 0));
    assert_eq!((g.row, g.col, g.rotation), (5, 4, 0));
}

#[test]
fn blocked_move_is_a_no_op() {
    let blocks = blocks();
    let mut g = game_with(BlockType::T, 0, 5, 0);
    assert!(!try_move(&mut g, &blocks, -1, 0));
    assert_eq!((g.row, g.col), (5, 0));
    let mut g = game_with(BlockType::I, 0, 16, 2);
    assert!(!try_move(&mut g, &blocks, 0, 1));
    assert_eq!((g.row, g.col), (16, 2));
    assert!(!try_move(&mut g, &blocks, i32::MAX, 0));
    assert_eq!((g.row, g.col), (16, 2));
}

#[test]
fn rotate_four_times_restores_state() {
    let blocks = blocks();
    for t in [BlockType::T, BlockType::L] {
        let mut g = game_with(t, 0, 8, 4);
        for _ in 0..4 {
            rotate_block(&mut g, &blocks);
        }
        assert_eq!((g.rotation, g.row, g.col), (0, 8, 4));
    }
}

#[test]
fn s_and_z_cycle_between_two_states() {
    let blocks = blocks();
    for t in [BlockType::S, BlockType::Z, BlockType::I] {
        let mut g = game_with(t, 0, 8, 4);
        rotate_block(&mut g, &blocks);
        assert_eq!(g.rotation, 1);
        rotate_block(&mut g, &blocks);
        assert_eq!(g.rotation, 0);
    }
}

#[test]
fn rotation_wall_kick_left() {
    let blocks = blocks();
    // vertical I against the right wall: horizontal needs columns 9..12
    let mut g = game_with(BlockType::I, 0, 5, 9);
    rotate_block(&mut g, &blocks);
    // in place and one step left both fail (columns up to 12 and 11)
    assert_eq!((g.rotation, g.col), (0, 9));
    let mut g = game_with(BlockType::I, 0, 5, 7);
    rotate_block(&mut g, &blocks);
    assert_eq!((g.rotation, g.col), (1, 6));
}

#[test]
fn rotation_wall_kick_right() {
    let blocks = blocks();
    // T rotation 1 at column -1 has cells in columns 0 and 1 only
    let mut g = game_with(BlockType::T, 1, 5, -1);
    assert!(is_drawable(&g, &blocks, 5, -1, 1));
    rotate_block(&mut g, &blocks);
    // rotation 2 needs column -1 in place, and -2 on the left: kick right to 0
    assert_eq!((g.rotation, g.col), (2, 0));
}

#[test]
fn rotation_blocked_is_a_no_op() {
    let blocks = blocks();
    let mut g = game_with(BlockType::I, 0, 16, 4);
    for c in 0..COLS {
        if c != 4 {
            g.board.set_occupied(16, c);
        }
    }
    rotate_block(&mut g, &blocks);
    assert_eq!((g.rotation, g.row, g.col), (0, 16, 4));
}

#[test]
fn settle_writes_piece_cells() {
    let blocks = blocks();
    let mut g = game_with(BlockType::T, 0, 18, 3);
    settle_block(&mut g, &blocks);
    assert!(g.board.is_occupied(18, 4));
    assert!(g.board.is_occupied(19, 3));
    assert!(g.board.is_occupied(19, 4));
    assert!(g.board.is_occupied(19, 5));
    assert!(!g.board.is_occupied(18, 3));
    assert!(!g.board.is_occupied(18, 5));
    assert_eq!((g.row, g.col, g.score), (18, 3, 0));
}

#[test]
fn settle_i_completes_row_and_scores_ten() {
    let blocks = blocks();
    let mut g = game_with(BlockType::I, 0, 16, 5);
    for c in 0..COLS {
        if c != 5 {
            g.board.set_occupied(19, c);
        }
    }
    settle_block(&mut g, &blocks);
    assert!(g.board.row_is_full(19));
    assert_eq!(collapse_rows(&mut g), 1);
    assert_eq!(g.score, 10);
    // rows 16..18 held only column 5; they moved down by one
    for r in 17..ROWS {
        for c in 0..COLS {
            assert_eq!(g.board.is_occupied(r, c), c == 5);
        }
    }
    for c in 0..COLS {
        assert!(!g.board.is_occupied(16, c));
        assert!(!g.board.is_occupied(0, c));
    }
}

#[test]
fn fall_step_lands_i_and_clears_row() {
    let blocks = blocks();
    let mut g = game_with(BlockType::I, 0, 16, 5);
    for c in 0..COLS {
        if c != 5 {
            g.board.set_occupied(19, c);
        }
    }
    assert!(fall_step(&mut g, &blocks, BlockType::T));
    assert_eq!(g.score, 10);
    assert_eq!(g.falling_block, BlockType::T);
    assert_eq!((g.rotation, g.row, g.col), (0, 0, 3));
}

#[test]
fn fall_step_moves_down_when_free() {
    let blocks = blocks();
    let mut g = Game::new(BlockType::L);
    assert!(fall_step(&mut g, &blocks, BlockType::T));
    assert_eq!((g.row, g.col, g.falling_block), (1, 3, BlockType::L));
}

#[test]
fn spawn_blocked_means_game_over() {
    let blocks = blocks();
    let mut g = game_with(BlockType::I, 0, 16, 0);
    for r in 0..4 {
        fill_row(&mut g.board, r);
    }
    // full rows 0..3 would collapse; keep them not full by leaving column 9 free
    let mut g2 = game_with(BlockType::I, 0, 16, 0);
    for r in 0..4 {
        for c in 0..9 {
            g2.board.set_occupied(r, c);
        }
    }
    assert!(!spawn_block(&mut g2, &blocks, BlockType::T));
    assert_eq!((g2.falling_block, g2.rotation, g2.row, g2.col), (BlockType::T, 0, 0, 3));
    let mut g3 = game_with(BlockType::I, 0, 16, 0);
    for r in 0..4 {
        for c in 0..9 {
            g3.board.set_occupied(r, c);
        }
    }
    assert!(!fall_step(&mut g3, &blocks, BlockType::T));
    assert!(!spawn_block(&mut g, &blocks, BlockType::S));
}

#[test]
fn collapse_no_full_rows_changes_nothing() {
    let mut g = Game::new(BlockType::T);
    g.board.set_occupied(19, 0);
    g.board.set_occupied(10, 3);
    g.score = 30;
    let before = g.board;
    assert_eq!(collapse_rows(&mut g), 0);
    assert_eq!(g.board, before);
    assert_eq!(g.score, 30);
}

#[test]
fn collapse_one_row_shifts_rows_above() {
    let mut g = Game::new(BlockType::T);
    fill_row(&mut g.board, 12);
    g.board.set_occupied(11, 2);
    g.board.set_occupied(0, 7);
    g.board.set_occupied(15, 1);
    assert_eq!(collapse_rows(&mut g), 1);
    assert_eq!(g.score, 10);
    assert!(g.board.is_occupied(12, 2));
    assert!(g.board.is_occupied(1, 7));
    assert!(g.board.is_occupied(15, 1));
    assert!(!g.board.is_occupied(11, 2));
    assert!(!g.board.is_occupied(0, 7));
    let count: usize = (0..ROWS)
        .map(|r| (0..COLS).filter(|&c| g.board.is_occupied(r, c)).count())
        .sum();
    assert_eq!(count, 3);
}

#[test]
fn collapse_adjacent_full_rows_all_cleared() {
    let mut g = Game::new(BlockType::T);
    fill_row(&mut g.board, 18);
    fill_row(&mut g.board, 19);
    fill_row(&mut g.board, 16);
    g.board.set_occupied(17, 4);
    assert_eq!(collapse_rows(&mut g), 3);
    assert_eq!(g.score, 30);
    assert!(g.board.is_occupied(19, 4));
    for r in 0..19 {
        for c in 0..COLS {
            assert!(!g.board.is_occupied(r, c));
        }
    }
}

#[test]
fn collapse_twice_is_idempotent() {
    let mut g = Game::new(BlockType::T);
    fill_row(&mut g.board, 19);
    fill_row(&mut g.board, 18);
    g.board.set_occupied(17, 0);
    assert_eq!(collapse_rows(&mut g), 2);
    let once = g.board;
    let score = g.score;
    assert_eq!(collapse_rows(&mut g), 0);
    assert_eq!(g.board, once);
    assert_eq!(g.score, score);
}

#[test]
fn collapse_full_board_leaves_it_empty() {
    let mut g = Game::new(BlockType::T);
    for r in 0..ROWS {
        fill_row(&mut g.board, r);
    }
    assert_eq!(collapse_rows(&mut g), 20);
    assert_eq!(g.score, 200);
    assert_eq!(g.board, Board::new());
}

#[test]
fn score_saturates_at_max() {
    let mut g = Game::new(BlockType::T);
    g.score = u32::MAX - 5;
    fill_row(&mut g.board, 19);
    assert_eq!(collapse_rows(&mut g), 1);
    assert_eq!(g.score, u32::MAX);
}

#[test]
fn board_queries() {
    let mut b = Board::new();
    assert!(!b.is_occupied(3, 3));
    b.set_occupied(3, 3);
    assert!(b.is_occupied(3, 3));
    assert!(!b.is_occupied(ROWS, 0));
    assert!(!b.is_occupied(0, COLS));
    assert!(!b.row_is_full(3));
    fill_row(&mut b, 3);
    assert!(b.row_is_full(3));
    b.remove_row(3);
    assert!(!b.row_is_full(3));
    assert!(!b.is_occupied(3, 3));
}

#[test]
fn apply_input_dispatches() {
    let blocks = blocks();
    let mut g = game_with(BlockType::T, 0, 5, 4);
    assert!(apply_input(&mut g, &blocks, Input::MoveLeft));
    assert_eq!(g.col, 3);
    assert!(apply_input(&mut g, &blocks, Input::MoveRight));
    assert_eq!(g.col, 4);
    assert!(apply_input(&mut g, &blocks, Input::MoveDown));
    assert_eq!(g.row, 6);
    assert!(apply_input(&mut g, &blocks, Input::Rotate));
    assert_eq!(g.rotation, 1);
    assert!(!apply_input(&mut g, &blocks, Input::Quit));
    assert_eq!((g.row, g.col, g.rotation), (6, 4, 1));
}

#[test]
fn key_cooldown() {
    let mut ctl = Controller::new();
    assert!(ctl.accept_key(Input::MoveLeft, 1000));
    assert!(!ctl.accept_key(Input::MoveLeft, 1100));
    assert!(ctl.accept_key(Input::MoveRight, 1100));
    assert!(!ctl.accept_key(Input::MoveLeft, 1149));
    assert!(ctl.accept_key(Input::MoveLeft, 1150));
    assert_eq!(ctl.last_left, Some(1150));
    assert!(ctl.accept_key(Input::Quit, 1150));
    assert!(ctl.accept_key(Input::Quit, 1151));
    assert!(!ctl.accept_key(Input::MoveLeft, 10));
}

#[test]
fn gravity_every_twenty_ticks() {
    let mut ctl = Controller::new();
    for _ in 0..19 {
        assert!(!ctl.gravity_tick());
    }
    assert!(ctl.gravity_tick());
    assert_eq!(ctl.fall_timer, 0);
    assert!(!ctl.gravity_tick());
    assert_eq!(ctl.fall_timer, 20);
}

#[test]
fn falling_cells_inside_grid() {
    let blocks = blocks();
    let g = Game::new(BlockType::T);
    let cells = falling_cells(&g, &blocks);
    assert_eq!(cells, vec![(0, 4), (1, 3), (1, 4), (1, 5)]);
    let g = game_with(BlockType::I, 0, -2, 0);
    assert_eq!(falling_cells(&g, &blocks), vec![(0, 0), (1, 0)]);
}
