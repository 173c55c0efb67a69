//! The game controller: it applies input to the falling block, locks the
//! block when it cannot fall, clears rows, keeps the score and ends the game.
use vstd::prelude::*;
use crate::bag::{bag_pick, bag_rest, bag_source, lemma_draw};
use crate::block::{Block, BlockKind};
use crate::canvas::{Rect, BOARD_OFFSET};
use crate::grid::{board_wf, is_outside, lemma_full_row_count_bounds, Grid, NUM_COLS, NUM_ROWS};
use crate::rules::{
    admits, inside, lemma_initial_wf, lemma_offsets_on_board, line_score, stamped, GameView,
};

verus! {

/// The most that one update adds to the score: a score that leaves room for
/// it can take any update.
pub const MAX_AWARD: i32 = 500;

/// What the player did since the last update.
#[derive(Clone, Copy, Debug, PartialEq, Eq, Structural)]
pub enum Input {
    /// No key was pressed.
    NoKey,
    Left,
    Right,
    Down,
    /// The key that rotates the block.
    Up,
    /// Any other key.
    Other,
}

/// A short sound that the caller plays after an update.
#[derive(Clone, Copy, Debug, PartialEq, Eq, Structural)]
pub enum Cue {
    /// The block was rotated.
    Rotate,
    /// At least one row was cleared.
    Clear,
}

/// What a step down did.
#[derive(Clone, Copy, Debug, PartialEq, Eq, Structural)]
pub enum Descent {
    /// Nothing: the game is over.
    Halted,
    /// The falling block moved one row down.
    Moved,
    /// The falling block was locked, and so many rows were cleared.
    Locked(i32),
}

impl Descent {
    /// The cue of a step down: the clear cue when the lock cleared a row.
    pub open spec fn spec_cue(self) -> Option<Cue> {
        match self {
            Descent::Locked(rows) if rows > 0 => Some(Cue::Clear),
            _ => None,
        }
    }

    /// The cue to play after the step.
    #[verifier::when_used_as_spec(spec_cue)]
    pub fn cue(self) -> (cue: Option<Cue>)
        ensures
            cue == self.spec_cue(),
    {
        match self {
            Descent::Locked(rows) => if rows > 0 {
                Some(Cue::Clear)
            } else {
                None
            },
            _ => None,
        }
    }
}

/// The game: the board, the falling block, the block that falls next, the
/// bag of kinds not yet drawn, the score, and whether the game is over.
#[derive(Clone, Debug, PartialEq, Eq)]
pub struct Game {
    pub game_over: bool,
    pub score: i32,
    pub grid: Grid,
    pub blocks: Vec<BlockKind>,
    pub current_block: Block,
    pub next_block: Block,
}

impl View for Game {
    type V = GameView;

    open spec fn view(&self) -> GameView {
        GameView {
            game_over: self.game_over,
            score: self.score as int,
            board: self.grid@,
            bag: self.blocks@,
            current: self.current_block@,
            next: self.next_block@,
        }
    }
}

impl Game {
    /// The game's value is well formed.
    pub open spec fn wf(&self) -> bool {
        self@.wf()
    }

    /// A new game. The two raw random numbers choose the falling and the next
    /// block.
    pub fn new(first: usize, second: usize) -> (game: Self)
        ensures
            game.wf(),
            game@ == GameView::initial(first as int, second as int),
    {
        let mut game = Self {
            game_over: false,
            score: 0,
            grid: Grid::new(),
            blocks: BlockKind::get_all_blocks(),
            current_block: Block::new(),
            next_block: Block::new(),
        };
        game.current_block = game.get_random_block(first);
        game.next_block = game.get_random_block(second);
        proof {
            lemma_initial_wf(first as int, second as int);
        }
        game
    }

    /// Takes a kind out of the bag and returns a new block of it. An empty
    /// bag is filled with all seven kinds first. The raw random number,
    /// reduced modulo the number of kinds to choose from, says which one is
    /// taken.
    pub fn get_random_block(&mut self, random: usize) -> (block: Block)
        ensures
            block.wf(),
            block@ == bag_pick(old(self)@.bag, random as int).spawn(),
            final(self)@ == (GameView { bag: bag_rest(old(self)@.bag, random as int), ..old(self)@ }),
    {
        if self.blocks.len() == 0 {
            self.blocks = BlockKind::get_all_blocks();
        }
        assert(self.blocks@ == bag_source(old(self)@.bag));
        assert(BlockKind::all().len() == 7);
        let random_index = random % self.blocks.len();
        let kind = self.blocks.remove(random_index);
        kind.block()
    }

    /// Whether a cell of the falling block lies off the board.
    pub fn is_block_outside(&self) -> (outside: bool)
        requires
            self.current_block.wf(),
            self.current_block.representable(),
        ensures
            outside == !inside(self@.current),
    {
        let tiles = self.current_block.get_cell_positions();
        let mut i: usize = 0;
        while i < 4
            invariant
                i <= 4,
                tiles@.len() == 4,
                forall|k: int| 0 <= k < 4 ==> (#[trigger] tiles@[k])@ == self@.current.cell(k),
                forall|k: int|
                    0 <= k < i ==> !is_outside(
                        (#[trigger] self@.current.cell(k)).0,
                        self@.current.cell(k).1,
                    ),
            decreases 4 - i,
        {
            let item = tiles[i];
            assert(item@ == self@.current.cell(i as int));
            if self.grid.is_cell_outside(item.row, item.column) {
                return true;
            }
            i += 1;
        }
        false
    }

    /// Whether the cells of the falling block are all empty. The block must
    /// lie on the board.
    pub fn block_fits(&self) -> (fits: bool)
        requires
            self.current_block.wf(),
            inside(self@.current),
        ensures
            fits == admits(self@.board, self@.current),
    {
        let tiles = self.current_block.get_cell_positions();
        let mut i: usize = 0;
        while i < 4
            invariant
                i <= 4,
                inside(self@.current),
                tiles@.len() == 4,
                forall|k: int| 0 <= k < 4 ==> (#[trigger] tiles@[k])@ == self@.current.cell(k),
                forall|k: int|
                    0 <= k < i ==> self@.board[(#[trigger] self@.current.cell(k)).0][self@.current.cell(
                        k,
                    ).1] == 0,
            decreases 4 - i,
        {
            let item = tiles[i];
            assert(item@ == self@.current.cell(i as int));
            if !self.grid.is_cell_empty(item.row, item.column) {
                return false;
            }
            i += 1;
        }
        true
    }

    /// Adds the points for `lines_cleared` rows and `move_down_points` to the
    /// score.
    pub fn update_score(&mut self, lines_cleared: i32, move_down_points: i32)
        requires
            i32::MIN <= old(self).score + line_score(lines_cleared as int) <= i32::MAX,
            i32::MIN <= old(self).score + line_score(lines_cleared as int) + move_down_points
                <= i32::MAX,
        ensures
            final(self)@ == (GameView {
                score: old(self).score + line_score(lines_cleared as int) + move_down_points,
                ..old(self)@
            }),
    {
        match lines_cleared {
            1 => self.score += 100,
            2 => self.score += 300,
            3 => self.score += 500,
            _ => (),
        }
        self.score += move_down_points;
    }

    /// Moves the falling block one column to the left, if the board has room
    /// for it there and the game is on.
    pub fn move_block_left(&mut self)
        requires
            old(self).wf(),
        ensures
            final(self).wf(),
            final(self)@ == old(self)@.move_left(),
    {
        if !self.game_over {
            proof {
                lemma_offsets_on_board(self@.current);
            }
            self.current_block.move_by(0, -1);
            if self.is_block_outside() || !self.block_fits() {
                self.current_block.move_by(0, 1);
            }
        }
    }

    /// Moves the falling block one column to the right, if the board has room
    /// for it there and the game is on.
    pub fn move_block_right(&mut self)
        requires
            old(self).wf(),
        ensures
            final(self).wf(),
            final(self)@ == old(self)@.move_right(),
    {
        if !self.game_over {
            proof {
                lemma_offsets_on_board(self@.current);
            }
            self.current_block.move_by(0, 1);
            if self.is_block_outside() || !self.block_fits() {
                self.current_block.move_by(0, -1);
            }
        }
    }

    /// Rotates the falling block, if the board has room for it in its next
    /// state and the game is on. Returns whether the block was rotated.
    pub fn rotate_block(&mut self) -> (rotated: bool)
        requires
            old(self).wf(),
        ensures
            final(self).wf(),
            final(self)@ == old(self)@.turn(),
            rotated == old(self)@.can_turn(),
    {
        if !self.game_over {
            proof {
                lemma_offsets_on_board(self@.current);
                self@.current.lemma_rotate_then_undo();
                self@.current.lemma_rotated_wf();
            }
            self.current_block.rotate();
            if self.is_block_outside() || !self.block_fits() {
                self.current_block.undo_rotation();
                false
            } else {
                true
            }
        } else {
            false
        }
    }

    /// Locks the falling block where it is: writes its id to the cells it
    /// occupies, lets the next block fall, ends the game if the board has no
    /// room for that one, draws a new next block, clears the full rows and
    /// adds the points for them. Returns the number of rows cleared. The
    /// score with those points added must fit in `i32`.
    pub fn lock_block(&mut self, random: usize) -> (rows_cleared: i32)
        requires
            old(self).wf(),
            old(self).score + line_score(old(self)@.lock_clears()) <= i32::MAX,
        ensures
            final(self).wf(),
            final(self)@ == old(self)@.lock(random as int),
            rows_cleared == old(self)@.lock_clears(),
    {
        let ghost piece = self@.current;
        let ghost board = self@.board;
        proof {
            lemma_offsets_on_board(piece);
        }
        let tiles = self.current_block.get_cell_positions();
        let id = self.current_block.id;
        let mut i: usize = 0;
        while i < 4
            invariant
                i <= 4,
                inside(piece),
                board_wf(board),
                tiles@.len() == 4,
                forall|k: int| 0 <= k < 4 ==> (#[trigger] tiles@[k])@ == piece.cell(k),
                id == piece.id,
                1 <= id <= 7,
                self.game_over == old(self).game_over,
                self.score == old(self).score,
                self.blocks == old(self).blocks,
                self.current_block == old(self).current_block,
                self.next_block == old(self).next_block,
                forall|r: int, c: int|
                    0 <= r < NUM_ROWS && 0 <= c < NUM_COLS ==> #[trigger] self.grid.grid[r][c] == if exists|
                        k: int,
                    |
                        0 <= k < i && #[trigger] piece.cell(k) == (r, c) {
                        id as int
                    } else {
                        board[r][c]
                    },
            decreases 4 - i,
        {
            let item = tiles[i];
            assert(item@ == piece.cell(i as int));
            assert(!is_outside(piece.cell(i as int).0, piece.cell(i as int).1));
            let ghost before = self.grid.grid;
            self.grid.grid[item.row as usize][item.column as usize] = id;
            assert forall|r: int, c: int| 0 <= r < NUM_ROWS && 0 <= c < NUM_COLS implies #[trigger] self.grid.grid[r][c]
                == if exists|k: int| 0 <= k < i + 1 && #[trigger] piece.cell(k) == (r, c) {
                id as int
            } else {
                board[r][c]
            } by {
                if piece.cell(i as int) == (r, c) {
                } else {
                    assert(self.grid.grid[r][c] == before[r][c]);
                    if exists|k: int| 0 <= k < i + 1 && #[trigger] piece.cell(k) == (r, c) {
                        let k = choose|k: int| 0 <= k < i + 1 && #[trigger] piece.cell(k) == (r, c);
                        assert(0 <= k < i && piece.cell(k) == (r, c));
                    }
                }
            }
            i += 1;
        }
        assert(self.grid@ =~~= stamped(board, piece));
        assert(self.grid.wf());
        self.current_block = self.next_block;
        proof {
            let kind = BlockKind::of_id(self@.next.id);
            kind.lemma_spawn_place();
            kind.lemma_id();
            kind.lemma_catalog();
            lemma_draw(self@.bag, random as int);
            bag_pick(self@.bag, random as int).lemma_id();
            lemma_full_row_count_bounds(self.grid@);
        }
        if !self.block_fits() {
            self.game_over = true;
        }
        self.next_block = self.get_random_block(random);
        let rows_cleared = self.grid.clear_full_rows();
        if rows_cleared > 0 {
            self.update_score(rows_cleared, 0);
        }
        rows_cleared
    }

    /// Moves the falling block one row down if the board has room for it
    /// there, and locks it if not. Does nothing when the game is over. The
    /// score as the step leaves it must fit in `i32`.
    pub fn move_block_down(&mut self, random: usize) -> (descent: Descent)
        requires
            old(self).wf(),
            old(self)@.move_down(random as int).score <= i32::MAX,
        ensures
            final(self).wf(),
            final(self)@ == old(self)@.move_down(random as int),
            descent == old(self)@.descent(),
    {
        if !self.game_over {
            proof {
                lemma_offsets_on_board(self@.current);
                lemma_full_row_count_bounds(stamped(self@.board, self@.current));
            }
            self.current_block.move_by(1, 0);
            if self.is_block_outside() || !self.block_fits() {
                self.current_block.move_by(-1, 0);
                let rows_cleared = self.lock_block(random);
                Descent::Locked(rows_cleared)
            } else {
                Descent::Moved
            }
        } else {
            Descent::Halted
        }
    }

    /// The player's step down: a step down that earns one point when the
    /// block did move. The score as the step leaves it must fit in `i32`.
    pub fn soft_drop(&mut self, random: usize) -> (descent: Descent)
        requires
            old(self).wf(),
            old(self)@.soft_drop(random as int).score <= i32::MAX,
        ensures
            final(self).wf(),
            final(self)@ == old(self)@.soft_drop(random as int),
            descent == old(self)@.descent(),
    {
        let descent = self.move_block_down(random);
        match descent {
            Descent::Moved => self.update_score(0, 1),
            _ => (),
        }
        descent
    }

    /// Starts a new game. The two raw random numbers choose the falling and
    /// the next block.
    pub fn reset(&mut self, first: usize, second: usize)
        ensures
            final(self).wf(),
            final(self)@ == GameView::initial(first as int, second as int),
    {
        self.grid.initialize();
        self.blocks = BlockKind::get_all_blocks();
        self.current_block = self.get_random_block(first);
        self.next_block = self.get_random_block(second);
        self.score = 0;
        self.game_over = false;
        proof {
            lemma_initial_wf(first as int, second as int);
        }
    }

    /// Carries out one input. A key pressed when the game is over starts a
    /// new game first, made with the first two raw random numbers. Then the
    /// key is carried out: left and right move the falling block, up rotates
    /// it, down moves it one row down or locks it; the third raw random
    /// number draws the successor of a block that is locked. Returns the cue
    /// to play. The score as the input leaves it must fit in `i32`; it does
    /// whenever the score before leaves room for `MAX_AWARD`.
    pub fn handle_input(&mut self, input: Input, randoms: [usize; 3]) -> (cue: Option<Cue>)
        requires
            old(self).wf(),
            old(self)@.handle(
                input,
                randoms[0] as int,
                randoms[1] as int,
                randoms[2] as int,
            ).score <= i32::MAX,
        ensures
            final(self).wf(),
            final(self)@ == old(self)@.handle(
                input,
                randoms[0] as int,
                randoms[1] as int,
                randoms[2] as int,
            ),
            cue == old(self)@.handle_cue(input, randoms[0] as int, randoms[1] as int),
    {
        if self.game_over {
            match input {
                Input::NoKey => (),
                _ => self.reset(randoms[0], randoms[1]),
            }
        }
        match input {
            Input::Left => {
                self.move_block_left();
                None
            },
            Input::Right => {
                self.move_block_right();
                None
            },
            Input::Down => self.soft_drop(randoms[2]).cue(),
            Input::Up => if self.rotate_block() {
                Some(Cue::Rotate)
            } else {
                None
            },
            _ => None,
        }
    }

    /// The picture of the game: the rectangles of the board, of the falling
    /// block, and of the next block in the preview panel, in that order.
    pub fn draw(&self) -> (tiles: Vec<Rect>)
        requires
            self.wf(),
        ensures
            self@.drawn_as(tiles@),
    {
        proof {
            let kind = BlockKind::of_id(self@.next.id);
            kind.lemma_spawn_place();
            kind.lemma_catalog();
            lemma_offsets_on_board(self@.current);
        }
        let mut tiles = self.grid.draw();
        let ghost board_tiles = tiles@;
        let mut falling = self.current_block.draw(BOARD_OFFSET, BOARD_OFFSET);
        let ghost falling_tiles = falling@;
        tiles.append(&mut falling);
        let mut preview = match self.next_block.id {
            3 => self.next_block.draw(255, 290),
            4 => self.next_block.draw(255, 280),
            _ => self.next_block.draw(270, 270),
        };
        let ghost preview_tiles = preview@;
        tiles.append(&mut preview);
        proof {
            assert(tiles@.subrange(0, NUM_ROWS * NUM_COLS) =~= board_tiles);
            assert(tiles@.subrange(NUM_ROWS * NUM_COLS, NUM_ROWS * NUM_COLS + 4) =~= falling_tiles);
            assert(tiles@.subrange(NUM_ROWS * NUM_COLS + 4, NUM_ROWS * NUM_COLS + 8)
                =~= preview_tiles);
        }
        tiles
    }
}

} // verus!
