//! The rules of the game as mathematics: the value of a game, what each
//! input and each step of the clock makes of it, and what holds of every game.
use vstd::prelude::*;
use crate::bag::{bag_pick, bag_rest, lemma_draw};
use crate::block::{BlockKind, Piece};
use crate::canvas::{Rect, BOARD_OFFSET};
use crate::game::{Cue, Descent, Input, MAX_AWARD};
use crate::grid::{
    board_drawn_as, board_wf, empty_board, empty_row, full_row_count, is_outside,
    lemma_settled_bottom_rows, lemma_settled_wf, row_is_full, settled,
    Board, NUM_COLS, NUM_ROWS,
};

verus! {

/// Whether all four cells of the piece lie on the board.
pub open spec fn inside(piece: Piece) -> bool {
    forall|i: int|
        0 <= i < 4 ==> !is_outside((#[trigger] piece.cell(i)).0, piece.cell(i).1)
}

/// Whether the board has room for the piece: all four cells lie on the board
/// and are empty.
pub open spec fn admits(board: Board, piece: Piece) -> bool {
    forall|i: int|
        0 <= i < 4 ==> {
            &&& !is_outside((#[trigger] piece.cell(i)).0, piece.cell(i).1)
            &&& board[piece.cell(i).0][piece.cell(i).1] == 0
        }
}

/// The board after the piece was locked: the cells the piece occupies hold
/// its id, and all others are as they were.
pub open spec fn stamped(board: Board, piece: Piece) -> Board {
    Seq::new(
        NUM_ROWS as nat,
        |r: int|
            Seq::new(
                NUM_COLS as nat,
                |c: int|
                    if piece.covers(r, c) {
                        piece.id
                    } else {
                        board[r][c]
                    },
            ),
    )
}

/// The points for clearing `lines` rows at once. Four rows at once earn
/// nothing, as does any count that the table does not list.
pub open spec fn line_score(lines: int) -> int {
    if lines == 1 {
        100
    } else if lines == 2 {
        300
    } else if lines == 3 {
        500
    } else {
        0
    }
}

/// What a lock writes: every cell of the piece holds the piece's id, every
/// other cell is as it was, and the board keeps its dimensions.
pub proof fn lemma_stamped(board: Board, piece: Piece)
    requires
        inside(piece),
    ensures
        stamped(board, piece).len() == NUM_ROWS,
        forall|r: int| 0 <= r < NUM_ROWS ==> (#[trigger] stamped(board, piece)[r]).len() == NUM_COLS,
        forall|i: int|
            0 <= i < 4 ==> stamped(board, piece)[(#[trigger] piece.cell(i)).0][piece.cell(i).1]
                == piece.id,
        forall|r: int, c: int|
            0 <= r < NUM_ROWS && 0 <= c < NUM_COLS && !piece.covers(r, c) ==> #[trigger] stamped(
                board,
                piece,
            )[r][c] == board[r][c],
{
    assert forall|i: int| 0 <= i < 4 implies stamped(board, piece)[(#[trigger] piece.cell(
        i,
    )).0][piece.cell(i).1] == piece.id by {
        let cell = piece.cell(i);
        assert(!is_outside(cell.0, cell.1));
        assert(piece.covers(cell.0, cell.1));
    }
}

/// The pixel offset along x at which the preview of the next block is drawn.
pub open spec fn preview_offset_x(id: int) -> int {
    if id == 3 || id == 4 {
        255
    } else {
        270
    }
}

/// The pixel offset along y at which the preview of the next block is drawn.
pub open spec fn preview_offset_y(id: int) -> int {
    if id == 3 {
        290
    } else if id == 4 {
        280
    } else {
        270
    }
}

/// The mathematical value of a game.
#[verifier::ext_equal]
pub struct GameView {
    pub game_over: bool,
    pub score: int,
    pub board: Board,
    /// The kinds not yet drawn from the current bag.
    pub bag: Seq<BlockKind>,
    /// The falling block.
    pub current: Piece,
    /// The block that falls next.
    pub next: Piece,
}

impl GameView {
    /// The cells of the board hold valid values, the falling block is a block
    /// of the catalog and lies on the board, the next block is a new block of
    /// the catalog, and the bag holds no kind twice.
    pub open spec fn wf(self) -> bool {
        &&& board_wf(self.board)
        &&& self.current.from_catalog()
        &&& inside(self.current)
        &&& 1 <= self.next.id <= 7
        &&& self.next == BlockKind::of_id(self.next.id).spawn()
        &&& self.bag.no_duplicates()
    }

    /// A new game: an empty board, no points, and the falling and the next
    /// block drawn from a full bag with the two raw random numbers.
    pub open spec fn initial(first: int, second: int) -> GameView {
        let full = BlockKind::all();
        let rest = bag_rest(full, first);
        GameView {
            game_over: false,
            score: 0,
            board: empty_board(),
            bag: bag_rest(rest, second),
            current: bag_pick(full, first).spawn(),
            next: bag_pick(rest, second).spawn(),
        }
    }

    /// The game after an attempt to bring the falling block into the state
    /// and place of `candidate`: the attempt succeeds when the game is on and
    /// the board has room, and else changes nothing.
    pub open spec fn place(self, candidate: Piece) -> GameView {
        if !self.game_over && admits(self.board, candidate) {
            GameView { current: candidate, ..self }
        } else {
            self
        }
    }

    /// The game after an attempt to move the falling block one column left.
    pub open spec fn move_left(self) -> GameView {
        self.place(self.current.moved(0, -1))
    }

    /// The game after an attempt to move the falling block one column right.
    pub open spec fn move_right(self) -> GameView {
        self.place(self.current.moved(0, 1))
    }

    /// The game after an attempt to rotate the falling block.
    pub open spec fn turn(self) -> GameView {
        self.place(self.current.rotated())
    }

    /// Whether the falling block can rotate.
    pub open spec fn can_turn(self) -> bool {
        !self.game_over && admits(self.board, self.current.rotated())
    }

    /// The game after the falling block was locked where it is. The block's
    /// cells are written to the board and the next block starts to fall. If
    /// the board, as it is then, has no room for it, the game is over. A new
    /// next block is drawn, the full rows are cleared, and the points for
    /// them are added.
    pub open spec fn lock(self, random: int) -> GameView {
        let board = stamped(self.board, self.current);
        GameView {
            game_over: self.game_over || !admits(board, self.next),
            score: self.score + line_score(full_row_count(board)),
            board: settled(board),
            bag: bag_rest(self.bag, random),
            current: self.next,
            next: bag_pick(self.bag, random).spawn(),
        }
    }

    /// The number of rows that a lock of the falling block clears.
    pub open spec fn lock_clears(self) -> int {
        full_row_count(stamped(self.board, self.current))
    }

    /// Whether the falling block can move one row down.
    pub open spec fn can_descend(self) -> bool {
        !self.game_over && admits(self.board, self.current.moved(1, 0))
    }

    /// The game after a step down: the falling block moves one row down when
    /// it can, and is locked when it cannot. Nothing happens when the game is
    /// over.
    pub open spec fn move_down(self, random: int) -> GameView {
        if self.game_over {
            self
        } else if self.can_descend() {
            GameView { current: self.current.moved(1, 0), ..self }
        } else {
            self.lock(random)
        }
    }

    /// What a step down does.
    pub open spec fn descent(self) -> Descent {
        if self.game_over {
            Descent::Halted
        } else if self.can_descend() {
            Descent::Moved
        } else {
            Descent::Locked(self.lock_clears() as i32)
        }
    }

    /// The game after the player's step down: a step down that earns one
    /// point when the block did move.
    pub open spec fn soft_drop(self, random: int) -> GameView {
        if self.can_descend() {
            GameView { score: self.score + 1, ..self.move_down(random) }
        } else {
            self.move_down(random)
        }
    }

    /// The game in which an input is carried out: a new one, made with the
    /// first two raw random numbers, when the game is over and a key was
    /// pressed, and else the game as it is.
    pub open spec fn awake(self, input: Input, first: int, second: int) -> GameView {
        if self.game_over && input != Input::NoKey {
            GameView::initial(first, second)
        } else {
            self
        }
    }

    /// The game after an input. A key pressed when the game is over starts a
    /// new game first. Then the input is carried out; a block that is locked
    /// by it has its successor drawn with the third raw random number.
    pub open spec fn handle(self, input: Input, first: int, second: int, third: int) -> GameView {
        let game = self.awake(input, first, second);
        match input {
            Input::Left => game.move_left(),
            Input::Right => game.move_right(),
            Input::Down => game.soft_drop(third),
            Input::Up => game.turn(),
            _ => game,
        }
    }

    /// The cue of an input: the rotate cue when the block was rotated, the
    /// clear cue when the step down cleared a row.
    pub open spec fn handle_cue(self, input: Input, first: int, second: int) -> Option<Cue> {
        let game = self.awake(input, first, second);
        match input {
            Input::Down => game.descent().cue(),
            Input::Up => if game.can_turn() {
                Some(Cue::Rotate)
            } else {
                None
            },
            _ => None,
        }
    }

    /// A move to the side or a rotation that would put a cell of the falling
    /// block off the board is not made: the game stays as it is, the block's
    /// offsets and rotation state included.
    pub proof fn lemma_off_board_move_is_reverted(self)
        ensures
            !inside(self.current.moved(0, -1)) ==> self.move_left() == self,
            !inside(self.current.moved(0, 1)) ==> self.move_right() == self,
            !inside(self.current.rotated()) ==> self.turn() == self,
    {
    }

    /// A step down that would put a cell of the falling block off the board
    /// is not made either: the block is locked where it was.
    pub proof fn lemma_off_board_descent_locks(self, random: int)
        requires
            !self.game_over,
            !inside(self.current.moved(1, 0)),
        ensures
            self.move_down(random) == self.lock(random),
            self.soft_drop(random) == self.lock(random),
            self.lock(random).board == settled(stamped(self.board, self.current)),
    {
    }

    /// A step down that the board has no room for, be it that a cell of the
    /// block would leave the board or would come onto an occupied cell, is
    /// not made: the block is locked with the offsets and the rotation state
    /// it had. Its four cells, and no others, get its id before the rows are
    /// cleared, the next block becomes the falling one, and the player's
    /// step earns no point beyond those of the rows.
    pub proof fn lemma_blocked_descent_locks(self, random: int)
        requires
            !self.game_over,
            inside(self.current),
            !admits(self.board, self.current.moved(1, 0)),
        ensures
            self.move_down(random) == self.lock(random),
            self.soft_drop(random) == self.lock(random),
            self.descent() == Descent::Locked(self.lock_clears() as i32),
            self.lock(random).board == settled(stamped(self.board, self.current)),
            self.lock(random).current == self.next,
            self.lock(random).score == self.score + line_score(self.lock_clears()),
            forall|i: int|
                0 <= i < 4 ==> stamped(self.board, self.current)[(#[trigger] self.current.cell(
                    i,
                )).0][self.current.cell(i).1] == self.current.id,
            forall|r: int, c: int|
                0 <= r < NUM_ROWS && 0 <= c < NUM_COLS && !self.current.covers(r, c)
                    ==> #[trigger] stamped(self.board, self.current)[r][c] == self.board[r][c],
    {
        lemma_stamped(self.board, self.current);
    }

    /// When the rows that are full once the falling block is written are
    /// exactly the `count` bottom rows, the lock clears them all at once: the
    /// score grows by what the table gives for `count`, every other row of
    /// the written board moves down by `count`, and `count` empty rows come in
    /// at the top. With one such row the score grows by 100 and the row above
    /// takes its place; with two it grows by 300, once; with four it does not
    /// grow.
    pub proof fn lemma_lock_clears_bottom_rows(self, random: int, count: int)
        requires
            inside(self.current),
            0 <= count <= NUM_ROWS,
            forall|r: int|
                0 <= r < NUM_ROWS - count ==> !row_is_full(
                    #[trigger] stamped(self.board, self.current)[r],
                ),
            forall|r: int|
                NUM_ROWS - count <= r < NUM_ROWS ==> row_is_full(
                    #[trigger] stamped(self.board, self.current)[r],
                ),
        ensures
            self.lock_clears() == count,
            self.lock(random).score == self.score + line_score(count),
            count == 1 ==> self.lock(random).score == self.score + 100,
            count == 2 ==> self.lock(random).score == self.score + 300,
            count == 3 ==> self.lock(random).score == self.score + 500,
            count == 4 ==> self.lock(random).score == self.score,
            self.lock(random).board.len() == NUM_ROWS,
            forall|r: int| 0 <= r < count ==> #[trigger] self.lock(random).board[r] == empty_row(),
            forall|r: int|
                count <= r < NUM_ROWS ==> #[trigger] self.lock(random).board[r] == stamped(
                    self.board,
                    self.current,
                )[r - count],
            count >= 1 ==> Descent::Locked(count as i32).cue() == Some(Cue::Clear),
            count == 0 ==> Descent::Locked(count as i32).cue() == None::<Cue>,
    {
        lemma_stamped(self.board, self.current);
        lemma_settled_bottom_rows(stamped(self.board, self.current), count);
    }

    /// No update takes points away, and none adds more than `MAX_AWARD`: a
    /// score that leaves room for `MAX_AWARD` can take any update. A new game
    /// starts from no points.
    pub proof fn lemma_award_is_bounded(self, input: Input, first: int, second: int, third: int)
        ensures
            self.score <= self.lock(third).score <= self.score + MAX_AWARD,
            self.score <= self.move_down(third).score <= self.score + MAX_AWARD,
            self.score <= self.soft_drop(third).score <= self.score + MAX_AWARD,
            self.awake(input, first, second).score <= self.handle(input, first, second, third).score
                <= self.awake(input, first, second).score + MAX_AWARD,
            self.game_over && input != Input::NoKey ==> self.awake(input, first, second).score == 0,
            !(self.game_over && input != Input::NoKey) ==> self.awake(input, first, second).score
                == self.score,
    {
    }

    /// A lock ends the game when a cell of the next block is occupied on the
    /// board as the lock leaves it, before the full rows are cleared.
    pub proof fn lemma_lock_on_occupied_spawn_ends_game(self, random: int, i: int)
        requires
            0 <= i < 4,
            stamped(self.board, self.current)[self.next.cell(i).0][self.next.cell(i).1] != 0,
        ensures
            self.lock(random).game_over,
    {
    }

    /// A lock ends a running game only then: when the board has room for the
    /// next block, the game goes on.
    pub proof fn lemma_lock_with_room_goes_on(self, random: int)
        requires
            !self.game_over,
            admits(stamped(self.board, self.current), self.next),
        ensures
            !self.lock(random).game_over,
    {
    }

    /// When the game is over, nothing changes it but a key: not a step down,
    /// and not an update without a key.
    pub proof fn lemma_game_over_is_stable(self, first: int, second: int, third: int)
        requires
            self.game_over,
        ensures
            self.move_down(third) == self,
            self.soft_drop(third) == self,
            self.move_left() == self,
            self.move_right() == self,
            self.turn() == self,
            self.descent() == Descent::Halted,
            self.handle(Input::NoKey, first, second, third) == self,
            self.handle_cue(Input::NoKey, first, second) == None::<Cue>,
    {
    }

    /// When the game is over, a key starts a new game and is carried out in
    /// it.
    pub proof fn lemma_key_restarts(self, input: Input, first: int, second: int, third: int)
        requires
            self.game_over,
            input != Input::NoKey,
        ensures
            self.handle(input, first, second, third) == GameView::initial(first, second).handle(
                input,
                first,
                second,
                third,
            ),
            input == Input::Other ==> self.handle(input, first, second, third) == GameView::initial(
                first,
                second,
            ),
    {
    }

    /// An attempt to move or rotate the falling block keeps the game well
    /// formed: the block never ends up off the board.
    pub proof fn lemma_place_wf(self, candidate: Piece)
        requires
            self.wf(),
            candidate.id == self.current.id,
            candidate.states == self.current.states,
            0 <= candidate.rotation < candidate.states.len(),
        ensures
            self.place(candidate).wf(),
    {
    }

    /// A lock keeps the game well formed.
    pub proof fn lemma_lock_wf(self, random: int)
        requires
            self.wf(),
        ensures
            self.lock(random).wf(),
    {
        let board = stamped(self.board, self.current);
        assert(board_wf(board));
        lemma_settled_wf(board);
        let kind = BlockKind::of_id(self.next.id);
        kind.lemma_spawn_place();
        kind.lemma_id();
        lemma_draw(self.bag, random);
        bag_pick(self.bag, random).lemma_id();
    }

    /// Every input keeps the game well formed.
    pub proof fn lemma_handle_wf(self, input: Input, first: int, second: int, third: int)
        requires
            self.wf(),
        ensures
            self.handle(input, first, second, third).wf(),
            self.move_down(third).wf(),
    {
        lemma_initial_wf(first, second);
        let game = self.awake(input, first, second);
        game.current.lemma_rotated_wf();
        game.lemma_lock_wf(third);
        self.lemma_lock_wf(third);
    }

    /// A lock adds to the score what the table gives for the number of rows
    /// it clears: 100 for one, 300 for two, 500 for three, and nothing for
    /// four.
    pub proof fn lemma_lock_scores_by_table(self, random: int)
        ensures
            self.lock_clears() == 1 ==> self.lock(random).score == self.score + 100,
            self.lock_clears() == 2 ==> self.lock(random).score == self.score + 300,
            self.lock_clears() == 3 ==> self.lock(random).score == self.score + 500,
            self.lock_clears() == 4 ==> self.lock(random).score == self.score,
            self.lock_clears() == 0 ==> self.lock(random).score == self.score,
    {
    }

    /// Whether `tiles` is the picture of the game: the board, then the
    /// falling block on the board, then the next block in the preview panel.
    pub open spec fn drawn_as(self, tiles: Seq<Rect>) -> bool {
        &&& tiles.len() == NUM_ROWS * NUM_COLS + 8
        &&& board_drawn_as(self.board, tiles.subrange(0, NUM_ROWS * NUM_COLS))
        &&& self.current.drawn_as(
            tiles.subrange(NUM_ROWS * NUM_COLS, NUM_ROWS * NUM_COLS + 4),
            BOARD_OFFSET as int,
            BOARD_OFFSET as int,
        )
        &&& self.next.drawn_as(
            tiles.subrange(NUM_ROWS * NUM_COLS + 4, NUM_ROWS * NUM_COLS + 8),
            preview_offset_x(self.next.id),
            preview_offset_y(self.next.id),
        )
    }
}

/// A block of the catalog that lies on the board has small offsets.
pub proof fn lemma_offsets_on_board(piece: Piece)
    requires
        piece.from_catalog(),
        inside(piece),
    ensures
        -3 <= piece.row_offset < NUM_ROWS,
        -3 <= piece.column_offset < NUM_COLS,
        1 <= piece.states.len() <= 4,
        forall|s: int, i: int|
            0 <= s < piece.states.len() && 0 <= i < 4 ==> {
                &&& 0 <= (#[trigger] piece.states[s][i]).0 < 4
                &&& 0 <= piece.states[s][i].1 < 4
            },
{
    BlockKind::of_id(piece.id).lemma_catalog();
    let first = piece.cell(0);
    assert(!is_outside(first.0, first.1));
    assert(0 <= piece.states[piece.rotation][0].0 < 4);
}

/// A new game is well formed.
pub proof fn lemma_initial_wf(first: int, second: int)
    ensures
        GameView::initial(first, second).wf(),
{
    let full = BlockKind::all();
    assert(full.len() == 7);
    assert(full.no_duplicates());
    lemma_draw(full, first);
    let rest = bag_rest(full, first);
    lemma_draw(rest, second);
    let current = bag_pick(full, first);
    let next = bag_pick(rest, second);
    current.lemma_id();
    current.lemma_spawn_place();
    next.lemma_id();
    assert(board_wf(empty_board()));
}

} // verus!
