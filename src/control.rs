//! Decisions of the control loop: what an input event does, when a key may
//! act again, when gravity pulls, and what the renderer is handed.
use vstd::prelude::*;

verus! {

use crate::board::{collapsed, full_count, COLS, ROWS};
use crate::game::{
    add_points, collapse_rows, fits, hits, moved, rotate_block, rotated, settle_block, settled,
    spawn_block, try_move, Game, SPAWN_COL, SPAWN_ROW,
};
use crate::piece::{block_index, catalog_wf, cells_of, spec_block_index, Block, BlockType};

/// Minimum time between two actions of the same key, in milliseconds.
pub const KEY_COOLDOWN_MS: u64 = 150;

/// Time between two pulls of gravity, in milliseconds.
pub const FALL_INTERVAL_MS: u32 = 400;

/// Length of one tick of the loop, in milliseconds.
pub const TICK_MS: u32 = 20;

/// An input event.
#[derive(Clone, Copy, Debug, PartialEq, Eq, Structural)]
pub enum Input {
    MoveLeft,
    MoveRight,
    MoveDown,
    Rotate,
    Quit,
}

/// The state after an input event (quitting leaves it as it is).
pub open spec fn after_input(g: Game, input: Input) -> Game {
    match input {
        Input::MoveLeft => moved(g, -1, 0),
        Input::MoveRight => moved(g, 1, 0),
        Input::MoveDown => moved(g, 0, 1),
        Input::Rotate => rotated(g),
        Input::Quit => g,
    }
}

/// Applies an input event to the game; returns false for `Quit`, which ends
/// the loop, and true otherwise.
pub fn apply_input(game: &mut Game, blocks: &[Block], input: Input) -> (keep_going: bool)
    requires
        catalog_wf(blocks@),
    ensures
        *final(game) == after_input(*old(game), input),
        keep_going == (input != Input::Quit),
{
    match input {
        Input::MoveLeft => {
            try_move(game, blocks, -1, 0);
        },
        Input::MoveRight => {
            try_move(game, blocks, 1, 0);
        },
        Input::MoveDown => {
            try_move(game, blocks, 0, 1);
        },
        Input::Rotate => {
            rotate_block(game, blocks);
        },
        Input::Quit => {
            return false;
        },
    }
    true
}

/// The grid after the falling piece of `g` settles and full rows collapse.
pub open spec fn landed_board(g: Game) -> Seq<Seq<bool>> {
    collapsed(settled(g.board@, cells_of(g.falling_block, g.rotation as int), g.row as int, g.col as int))
}

/// One pull of gravity. If the piece fits one row lower it moves there and
/// the result is true. Otherwise it settles, full rows collapse and score,
/// and a piece of shape `next` spawns; the result is whether it fits, false
/// meaning the game is over.
pub fn fall_step(game: &mut Game, blocks: &[Block], next: BlockType) -> (alive: bool)
    requires
        catalog_wf(blocks@),
    ensures
        fits(*old(game), old(game).rotation as int, old(game).row + 1, old(game).col as int) ==> {
            &&& *final(game) == moved(*old(game), 0, 1)
            &&& alive
        },
        !fits(*old(game), old(game).rotation as int, old(game).row + 1, old(game).col as int) ==> {
            let s = settled(
                old(game).board@,
                cells_of(old(game).falling_block, old(game).rotation as int),
                old(game).row as int,
                old(game).col as int,
            );
            &&& final(game).board@ == collapsed(s)
            &&& final(game).score == add_points(old(game).score, full_count(s))
            &&& final(game).falling_block == next
            &&& final(game).rotation == 0
            &&& final(game).row == SPAWN_ROW
            &&& final(game).col == SPAWN_COL
            &&& alive == fits(*final(game), 0, SPAWN_ROW as int, SPAWN_COL as int)
        },
{
    if try_move(game, blocks, 0, 1) {
        return true;
    }
    settle_block(game, blocks);
    collapse_rows(game);
    spawn_block(game, blocks, next)
}

/// A key last acted at `last` (if ever) may act again at time `now`.
pub open spec fn cooled_down(last: Option<u64>, now: u64) -> bool {
    match last {
        None => true,
        Some(t) => now >= t && now - t >= KEY_COOLDOWN_MS,
    }
}

/// When each key last acted, and the time gathered towards the next pull of
/// gravity.
pub struct Controller {
    pub last_rotate: Option<u64>,
    pub last_left: Option<u64>,
    pub last_right: Option<u64>,
    pub last_down: Option<u64>,
    pub fall_timer: u32,
}

impl Controller {
    /// The gravity timer stays below one interval.
    pub open spec fn wf(&self) -> bool {
        self.fall_timer < FALL_INTERVAL_MS
    }

    /// When the key of `input` last acted (`Quit` has no cooldown).
    pub open spec fn last_of(&self, input: Input) -> Option<u64> {
        match input {
            Input::MoveLeft => self.last_left,
            Input::MoveRight => self.last_right,
            Input::MoveDown => self.last_down,
            Input::Rotate => self.last_rotate,
            Input::Quit => None,
        }
    }

    /// No key has acted yet and no time has gathered.
    pub fn new() -> (c: Controller)
        ensures
            c.wf(),
            c.fall_timer == 0,
            forall|i: Input| #[trigger] c.last_of(i) == None::<u64>,
    {
        Controller { last_rotate: None, last_left: None, last_right: None, last_down: None, fall_timer: 0 }
    }

    /// Whether the key of `input`, pressed at time `now_ms`, acts; when it
    /// does, its time is recorded. `Quit` always acts.
    pub fn accept_key(&mut self, input: Input, now_ms: u64) -> (act: bool)
        ensures
            act == cooled_down(old(self).last_of(input), now_ms),
            final(self).fall_timer == old(self).fall_timer,
            forall|i: Input|
                #[trigger] final(self).last_of(i) == if i == input && act && input != Input::Quit {
                    Some(now_ms)
                } else {
                    old(self).last_of(i)
                },
    {
        let last = match input {
            Input::MoveLeft => self.last_left,
            Input::MoveRight => self.last_right,
            Input::MoveDown => self.last_down,
            Input::Rotate => self.last_rotate,
            Input::Quit => None,
        };
        let act = match last {
            None => true,
            Some(t) => now_ms >= t && now_ms - t >= KEY_COOLDOWN_MS,
        };
        if act {
            match input {
                Input::MoveLeft => self.last_left = Some(now_ms),
                Input::MoveRight => self.last_right = Some(now_ms),
                Input::MoveDown => self.last_down = Some(now_ms),
                Input::Rotate => self.last_rotate = Some(now_ms),
                Input::Quit => {},
            }
        }
        act
    }

    /// Advances the gravity timer by one tick; returns true, and restarts the
    /// timer, when a full interval has gathered.
    pub fn gravity_tick(&mut self) -> (pull: bool)
        requires
            old(self).wf(),
        ensures
            final(self).wf(),
            pull == (old(self).fall_timer + TICK_MS >= FALL_INTERVAL_MS),
            final(self).fall_timer == if pull { 0 } else { (old(self).fall_timer + TICK_MS) as u32 },
            forall|i: Input| #[trigger] final(self).last_of(i) == old(self).last_of(i),
    {
        self.fall_timer = self.fall_timer + TICK_MS;
        if self.fall_timer >= FALL_INTERVAL_MS {
            self.fall_timer = 0;
            true
        } else {
            false
        }
    }
}

/// The cells of the falling piece that lie on the grid, as (row, column),
/// for the renderer.
pub fn falling_cells(game: &Game, blocks: &[Block]) -> (r: Vec<(usize, usize)>)
    requires
        catalog_wf(blocks@),
    ensures
        r@.len() <= 4,
        forall|p: (usize, usize)|
            r@.contains(p) <==> (p.0 < ROWS && p.1 < COLS && hits(
                cells_of(game.falling_block, game.rotation as int),
                4,
                game.row as int,
                game.col as int,
                p.0 as int,
                p.1 as int,
            )),
{
    let idx = block_index(game.falling_block);
    assert(blocks@[spec_block_index(game.falling_block)].holds_shape(game.falling_block));
    let cells = blocks[idx].get_cells(game.rotation);
    let ghost spec_cells = cells_of(game.falling_block, game.rotation as int);
    assert(cells@ == spec_cells);
    let row = game.row;
    let col = game.col;
    let mut out: Vec<(usize, usize)> = Vec::new();
    let mut i: usize = 0;
    while i < 4
        invariant
            i <= 4,
            out@.len() <= i,
            cells@ == spec_cells,
            spec_cells.len() == 4,
            forall|p: (usize, usize)|
                out@.contains(p) <==> (p.0 < ROWS && p.1 < COLS && hits(
                    spec_cells,
                    i as int,
                    row as int,
                    col as int,
                    p.0 as int,
                    p.1 as int,
                )),
        decreases 4 - i,
    {
        let (dr, dc) = cells[i];
        let r = row as i64 + dr as i64;
        let c = col as i64 + dc as i64;
        let ghost before = out@;
        if r >= 0 && r < ROWS as i64 && c >= 0 && c < COLS as i64 {
            out.push((r as usize, c as usize));
        }
        proof {
            assert(spec_cells[i as int] == (dr, dc));
            assert forall|p: (usize, usize)|
                out@.contains(p) <==> (p.0 < ROWS && p.1 < COLS && hits(
                    spec_cells,
                    i + 1,
                    row as int,
                    col as int,
                    p.0 as int,
                    p.1 as int,
                )) by {
                let hit_now = hits(spec_cells, i as int, row as int, col as int, p.0 as int, p.1 as int);
                let hit_next = hits(spec_cells, i + 1, row as int, col as int, p.0 as int, p.1 as int);
                if hit_next {
                    let j = choose|j: int|
                        0 <= j < i + 1 && row + (#[trigger] spec_cells[j]).0 == p.0 as int && col
                            + spec_cells[j].1 == p.1 as int;
                    if j < i {
                        assert(hit_now);
                    }
                }
                if hit_now {
                    let j = choose|j: int|
                        0 <= j < i && row + (#[trigger] spec_cells[j]).0 == p.0 as int && col
                            + spec_cells[j].1 == p.1 as int;
                    assert(0 <= j < i + 1);
                }
                if p.0 as int == r && p.1 as int == c {
                    assert(row + spec_cells[i as int].0 == p.0 as int && col + spec_cells[i as int].1 == p.1 as int);
                }
                if out@.contains(p) && !before.contains(p) {
                    assert(out@ == before.push((r as usize, c as usize)));
                    let k = choose|k: int| 0 <= k < out@.len() && out@[k] == p;
                    if k < before.len() {
                        assert(before[k] == p);
                    }
                }
                if before.contains(p) {
                    let k = choose|k: int| 0 <= k < before.len() && before[k] == p;
                    assert(out@[k] == p);
                }
                if p.0 as int == r && p.1 as int == c && r >= 0 && r < ROWS && c >= 0 && c < COLS {
                    assert(out@[out@.len() - 1] == p);
                }
            }
        }
        i += 1;
    }
    out
}

} // verus!
