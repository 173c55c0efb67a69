//! Blocks: their mathematical value, the operations that move and rotate
//! them, and the catalog of the seven kinds.
use vstd::prelude::*;
use vstd::arithmetic::div_mod::{
    lemma_add_mod_noop, lemma_mod_add_multiples_vanish, lemma_mod_self_0, lemma_small_mod,
};
use crate::canvas::{pixel_fits, tile, Rect};
use crate::colors::{get_cell_colors, palette};
use crate::position::Position;

verus! {

/// The mathematical value of a block: its kind id, the cell layouts of its
/// rotation states, the state it is in, and how far it has been shifted.
///
/// Each layout lists the four cells of one orientation as `(row, column)`
/// pairs relative to the block's bounding box.
#[verifier::ext_equal]
pub struct Piece {
    pub id: int,
    pub states: Seq<Seq<(int, int)>>,
    pub rotation: int,
    pub row_offset: int,
    pub column_offset: int,
}

impl Piece {
    /// There is at least one rotation state, every state has four cells, and
    /// the current state is one of them.
    pub open spec fn wf(self) -> bool {
        &&& self.states.len() >= 1
        &&& 0 <= self.rotation < self.states.len()
        &&& forall|s: int| 0 <= s < self.states.len() ==> (#[trigger] self.states[s]).len() == 4
    }

    /// The `i`-th cell the piece occupies, as an absolute `(row, column)`:
    /// the cell of the current layout, shifted by the offsets.
    pub open spec fn cell(self, i: int) -> (int, int) {
        let relative = self.states[self.rotation][i];
        (relative.0 + self.row_offset, relative.1 + self.column_offset)
    }

    /// Whether the piece occupies the cell at `(row, column)`.
    pub open spec fn covers(self, row: int, column: int) -> bool {
        exists|i: int| 0 <= i < 4 && self.cell(i) == (row, column)
    }

    /// Whether `tiles` is the picture of the piece: one rectangle for each
    /// cell it occupies, in the order of its layout and in the colour of its
    /// kind, the drawing shifted by the given pixel offsets.
    pub open spec fn drawn_as(self, tiles: Seq<Rect>, offset_x: int, offset_y: int) -> bool {
        &&& tiles.len() == 4
        &&& forall|i: int|
            0 <= i < 4 ==> (#[trigger] tiles[i]).paints(
                self.cell(i).0,
                self.cell(i).1,
                offset_x,
                offset_y,
                palette()[self.id],
            )
    }

    /// Whether the piece is a block of one of the seven kinds.
    pub open spec fn from_catalog(self) -> bool {
        &&& 1 <= self.id <= 7
        &&& BlockKind::of_id(self.id).has(self)
    }

    /// The piece shifted by `rows` down and `columns` to the right.
    pub open spec fn moved(self, rows: int, columns: int) -> Piece {
        Piece {
            row_offset: self.row_offset + rows,
            column_offset: self.column_offset + columns,
            ..self
        }
    }

    /// The piece in its next rotation state; the last state is followed by
    /// the first.
    pub open spec fn rotated(self) -> Piece {
        Piece {
            rotation: if self.rotation + 1 == self.states.len() {
                0
            } else {
                self.rotation + 1
            },
            ..self
        }
    }

    /// The piece in its previous rotation state; the first state is preceded
    /// by the last.
    pub open spec fn unrotated(self) -> Piece {
        Piece {
            rotation: if self.rotation == 0 {
                self.states.len() - 1
            } else {
                self.rotation - 1
            },
            ..self
        }
    }

    /// The piece after `n` rotations.
    pub open spec fn rotated_by(self, n: nat) -> Piece
        decreases n,
    {
        if n == 0 {
            self
        } else {
            self.rotated_by((n - 1) as nat).rotated()
        }
    }

    /// A rotation keeps a piece well formed.
    pub proof fn lemma_rotated_wf(self)
        requires
            self.wf(),
        ensures
            self.rotated().wf(),
            self.unrotated().wf(),
    {
    }

    /// Undoing a rotation restores the piece, whatever state it was in.
    pub proof fn lemma_rotate_then_undo(self)
        requires
            self.wf(),
        ensures
            self.rotated().unrotated() == self,
    {
    }

    /// Rotating after an undone rotation restores the piece as well.
    pub proof fn lemma_undo_then_rotate(self)
        requires
            self.wf(),
        ensures
            self.unrotated().rotated() == self,
    {
    }

    /// A rotation advances the state index by one, and its undoing takes it
    /// back by one, both modulo the number of states.
    pub proof fn lemma_rotation_is_modular(self)
        requires
            self.wf(),
        ensures
            self.rotated().rotation == (self.rotation + 1) % (self.states.len() as int),
            self.unrotated().rotation == (self.rotation - 1) % (self.states.len() as int),
    {
        let m = self.states.len() as int;
        if self.rotation + 1 == m {
            lemma_mod_self_0(m);
        } else {
            lemma_small_mod((self.rotation + 1) as nat, m as nat);
        }
        if self.rotation == 0 {
            lemma_mod_add_multiples_vanish(-1, m);
            lemma_small_mod((m - 1) as nat, m as nat);
        } else {
            lemma_small_mod((self.rotation - 1) as nat, m as nat);
        }
    }

    /// `n` rotations advance the state index by `n`, modulo the number of
    /// states, and change nothing else.
    pub proof fn lemma_rotated_by(self, n: nat)
        requires
            self.wf(),
        ensures
            self.rotated_by(n) == (Piece {
                rotation: (self.rotation + n) % (self.states.len() as int),
                ..self
            }),
        decreases n,
    {
        let m = self.states.len() as int;
        if n == 0 {
            lemma_small_mod(self.rotation as nat, m as nat);
        } else {
            self.lemma_rotated_by((n - 1) as nat);
            let before = self.rotated_by((n - 1) as nat);
            before.lemma_rotation_is_modular();
            lemma_add_mod_noop(self.rotation + n - 1, 1, m);
            if m == 1 {
                lemma_mod_self_0(m);
            } else {
                lemma_small_mod(1, m as nat);
            }
            lemma_add_mod_noop((self.rotation + n - 1) % m, 1, m);
        }
    }

    /// Rotating as many times as the piece has states brings it back to the
    /// state it started in.
    pub proof fn lemma_full_turn(self)
        requires
            self.wf(),
        ensures
            self.rotated_by(self.states.len()) == self,
    {
        let m = self.states.len() as int;
        self.lemma_rotated_by(self.states.len());
        lemma_add_mod_noop(self.rotation, m, m);
        lemma_mod_self_0(m);
        lemma_small_mod(self.rotation as nat, m as nat);
    }
}

/// A live block: a kind id, the cell layouts of up to four rotation states,
/// the number of states in use, the current state and the offsets.
///
/// Only the first `state_count` rows of `cells` are layouts; the rest is
/// padding and never read.
#[derive(Clone, Copy, Debug, PartialEq, Eq)]
pub struct Block {
    pub id: i32,
    pub cells: [[Position; 4]; 4],
    pub state_count: usize,
    pub rotation_state: usize,
    pub row_offset: i32,
    pub column_offset: i32,
}

impl View for Block {
    type V = Piece;

    open spec fn view(&self) -> Piece {
        Piece {
            id: self.id as int,
            states: Seq::new(
                self.state_count as nat,
                |s: int| Seq::new(4, |i: int| self.cells[s][i]@),
            ),
            rotation: self.rotation_state as int,
            row_offset: self.row_offset as int,
            column_offset: self.column_offset as int,
        }
    }
}

impl Block {
    /// Between one and four rotation states are in use, and the current state
    /// is one of them.
    pub open spec fn wf(&self) -> bool {
        &&& 1 <= self.state_count <= 4
        &&& self.rotation_state < self.state_count
    }

    /// Every cell the block occupies has coordinates that fit in `i32`.
    pub open spec fn representable(&self) -> bool {
        forall|i: int|
            0 <= i < 4 ==> {
                &&& i32::MIN <= (#[trigger] self@.cell(i)).0 <= i32::MAX
                &&& i32::MIN <= self@.cell(i).1 <= i32::MAX
            }
    }

    /// A blank block: id 0, no rotation state, no offset, and every cell of
    /// the layout table at the origin. It is the base that the constructors
    /// of the seven kinds fill in, and not well formed itself.
    pub fn new() -> (block: Self)
        ensures
            block@ == (Piece {
                id: 0,
                states: Seq::empty(),
                rotation: 0,
                row_offset: 0,
                column_offset: 0,
            }),
            block.state_count == 0,
            forall|s: int, i: int|
                0 <= s < 4 && 0 <= i < 4 ==> (#[trigger] block.cells[s][i])@ == (0int, 0int),
    {
        let origin = Position::new(0, 0);
        let block = Self {
            id: 0,
            cells: [[origin; 4]; 4],
            state_count: 0,
            rotation_state: 0,
            row_offset: 0,
            column_offset: 0,
        };
        assert(block@.states =~= Seq::empty());
        block
    }

    /// Shifts the block by `rows` down and `columns` to the right, whether or
    /// not the new place is free or on the board.
    pub fn move_by(&mut self, rows: i32, columns: i32)
        requires
            i32::MIN <= old(self).row_offset + rows <= i32::MAX,
            i32::MIN <= old(self).column_offset + columns <= i32::MAX,
        ensures
            final(self)@ == old(self)@.moved(rows as int, columns as int),
            final(self).wf() == old(self).wf(),
            final(self).cells == old(self).cells,
            final(self).state_count == old(self).state_count,
    {
        self.row_offset += rows;
        self.column_offset += columns;
    }

    /// The four cells the block occupies, in the order of its current layout.
    pub fn get_cell_positions(&self) -> (positions: Vec<Position>)
        requires
            self.wf(),
            self.representable(),
        ensures
            positions@.len() == 4,
            forall|i: int| 0 <= i < 4 ==> (#[trigger] positions@[i])@ == self@.cell(i),
    {
        let mut moved_tiles: Vec<Position> = Vec::new();
        let mut i: usize = 0;
        while i < 4
            invariant
                i <= 4,
                self.wf(),
                self.representable(),
                moved_tiles@.len() == i,
                forall|k: int| 0 <= k < i ==> (#[trigger] moved_tiles@[k])@ == self@.cell(k),
            decreases 4 - i,
        {
            let item = self.cells[self.rotation_state][i];
            assert(self@.cell(i as int) == (
                item.row + self.row_offset,
                item.column + self.column_offset,
            ));
            let new_pos = Position::new(
                item.row + self.row_offset,
                item.column + self.column_offset,
            );
            moved_tiles.push(new_pos);
            i += 1;
        }
        moved_tiles
    }

    /// Advances to the next rotation state, wrapping from the last to the
    /// first.
    pub fn rotate(&mut self)
        requires
            old(self).wf(),
        ensures
            final(self).wf(),
            final(self)@ == old(self)@.rotated(),
            final(self).cells == old(self).cells,
            final(self).state_count == old(self).state_count,
    {
        self.rotation_state += 1;
        if self.rotation_state == self.state_count {
            self.rotation_state = 0;
        }
    }

    /// Goes back to the previous rotation state, wrapping from the first to
    /// the last: the exact inverse of `rotate`.
    pub fn undo_rotation(&mut self)
        requires
            old(self).wf(),
        ensures
            final(self).wf(),
            final(self)@ == old(self)@.unrotated(),
            final(self).cells == old(self).cells,
            final(self).state_count == old(self).state_count,
    {
        if self.rotation_state == 0 {
            self.rotation_state = self.state_count - 1;
        } else {
            self.rotation_state -= 1;
        }
    }

    /// Whether the four rectangles of the block can be computed in `i32` when
    /// the drawing is shifted by the given pixel offsets.
    pub open spec fn drawable(&self, offset_x: int, offset_y: int) -> bool {
        forall|i: int|
            0 <= i < 4 ==> {
                &&& pixel_fits((#[trigger] self@.cell(i)).1, offset_x)
                &&& pixel_fits(self@.cell(i).0, offset_y)
            }
    }

    /// One rectangle for each cell the block occupies, in the colour of the
    /// block's kind, shifted by the given pixel offsets.
    pub fn draw(&self, offset_x: i32, offset_y: i32) -> (tiles: Vec<Rect>)
        requires
            self.wf(),
            self.representable(),
            0 <= self.id <= 7,
            self.drawable(offset_x as int, offset_y as int),
        ensures
            self@.drawn_as(tiles@, offset_x as int, offset_y as int),
    {
        let positions = self.get_cell_positions();
        let colors = get_cell_colors();
        let color = colors[self.id as usize];
        let mut tiles: Vec<Rect> = Vec::new();
        let mut i: usize = 0;
        while i < 4
            invariant
                i <= 4,
                self.drawable(offset_x as int, offset_y as int),
                positions@.len() == 4,
                forall|k: int| 0 <= k < 4 ==> (#[trigger] positions@[k])@ == self@.cell(k),
                color == palette()[self.id as int],
                tiles@.len() == i,
                forall|k: int|
                    0 <= k < i ==> (#[trigger] tiles@[k]).paints(
                        self@.cell(k).0,
                        self@.cell(k).1,
                        offset_x as int,
                        offset_y as int,
                        color,
                    ),
            decreases 4 - i,
        {
            let item = positions[i];
            assert(item@ == self@.cell(i as int));
            tiles.push(tile(item.row, item.column, offset_x, offset_y, color));
            i += 1;
        }
        tiles
    }
}

/// The seven kinds of block.
#[derive(Clone, Copy, Debug, PartialEq, Eq, Structural)]
pub enum BlockKind {
    L,
    J,
    I,
    O,
    S,
    T,
    Z,
}

impl BlockKind {
    /// The value that marks a cell locked by a block of this kind; it also
    /// selects the kind's colour in the palette.
    pub open spec fn id(self) -> int {
        match self {
            BlockKind::L => 1,
            BlockKind::J => 2,
            BlockKind::I => 3,
            BlockKind::O => 4,
            BlockKind::S => 5,
            BlockKind::T => 6,
            BlockKind::Z => 7,
        }
    }

    /// The kind with the given id; ids outside `1..=7` have no kind, and the
    /// function is of no interest there.
    pub open spec fn of_id(id: int) -> BlockKind {
        if id == 1 {
            BlockKind::L
        } else if id == 2 {
            BlockKind::J
        } else if id == 3 {
            BlockKind::I
        } else if id == 4 {
            BlockKind::O
        } else if id == 5 {
            BlockKind::S
        } else if id == 6 {
            BlockKind::T
        } else {
            BlockKind::Z
        }
    }

    /// The shape catalog: for each kind, the cell layout of every rotation
    /// state, each cell as `(row, column)` inside the kind's bounding box.
    pub open spec fn states(self) -> Seq<Seq<(int, int)>> {
        match self {
            BlockKind::L => seq![
                seq![(0, 2), (1, 0), (1, 1), (1, 2)],
                seq![(0, 1), (1, 1), (2, 1), (2, 2)],
                seq![(1, 0), (1, 1), (1, 2), (2, 0)],
                seq![(0, 0), (0, 1), (1, 1), (2, 1)],
            ],
            BlockKind::J => seq![
                seq![(0, 0), (1, 0), (1, 1), (1, 2)],
                seq![(0, 1), (0, 2), (1, 1), (2, 1)],
                seq![(1, 0), (1, 1), (1, 2), (2, 2)],
                seq![(0, 1), (1, 1), (2, 0), (2, 1)],
            ],
            BlockKind::I => seq![
                seq![(1, 0), (1, 1), (1, 2), (1, 3)],
                seq![(0, 2), (1, 2), (2, 2), (3, 2)],
                seq![(2, 0), (2, 1), (2, 2), (2, 3)],
                seq![(0, 1), (1, 1), (2, 1), (3, 1)],
            ],
            BlockKind::O => seq![
                seq![(0, 0), (0, 1), (1, 0), (1, 1)],
            ],
            BlockKind::S => seq![
                seq![(0, 1), (0, 2), (1, 0), (1, 1)],
                seq![(0, 1), (1, 1), (1, 2), (2, 2)],
                seq![(1, 1), (1, 2), (2, 0), (2, 1)],
                seq![(0, 0), (1, 0), (1, 1), (2, 1)],
            ],
            BlockKind::T => seq![
                seq![(0, 1), (1, 0), (1, 1), (1, 2)],
                seq![(0, 1), (1, 1), (1, 2), (2, 1)],
                seq![(1, 0), (1, 1), (1, 2), (2, 1)],
                seq![(0, 1), (1, 0), (1, 1), (2, 1)],
            ],
            BlockKind::Z => seq![
                seq![(0, 0), (0, 1), (1, 1), (1, 2)],
                seq![(0, 2), (1, 1), (1, 2), (2, 1)],
                seq![(1, 0), (1, 1), (2, 1), (2, 2)],
                seq![(0, 1), (1, 0), (1, 1), (2, 0)],
            ],
        }
    }

    /// The row offset a block of this kind is created with. The straight
    /// piece starts one row up, so that its first layout lies in the top row.
    pub open spec fn spawn_row(self) -> int {
        match self {
            BlockKind::I => -1,
            _ => 0,
        }
    }

    /// The column offset a block of this kind is created with: the one that
    /// centres the piece on a board of ten columns.
    pub open spec fn spawn_column(self) -> int {
        match self {
            BlockKind::O => 4,
            _ => 3,
        }
    }

    /// A new block of this kind: first rotation state, at its spawn offsets.
    pub open spec fn spawn(self) -> Piece {
        Piece {
            id: self.id(),
            states: self.states(),
            rotation: 0,
            row_offset: self.spawn_row(),
            column_offset: self.spawn_column(),
        }
    }

    /// Whether `piece` is a block of this kind, in any of the kind's states
    /// and at any place.
    pub open spec fn has(self, piece: Piece) -> bool {
        &&& piece.id == self.id()
        &&& piece.states == self.states()
        &&& 0 <= piece.rotation < piece.states.len()
    }

    /// All seven kinds, in the order in which a full bag holds them.
    pub open spec fn all() -> Seq<BlockKind> {
        seq![
            BlockKind::I,
            BlockKind::J,
            BlockKind::L,
            BlockKind::O,
            BlockKind::S,
            BlockKind::T,
            BlockKind::Z,
        ]
    }

    /// Every kind has an id in `1..=7`, and `of_id` finds the kind again.
    pub proof fn lemma_id(self)
        ensures
            1 <= self.id() <= 7,
            BlockKind::of_id(self.id()) == self,
    {
    }

    /// What holds of every entry of the catalog: a kind has between one and
    /// four rotation states of four cells each, and every cell lies in the
    /// bounding box of four rows and four columns.
    pub proof fn lemma_catalog(self)
        ensures
            1 <= self.states().len() <= 4,
            forall|s: int|
                0 <= s < self.states().len() ==> (#[trigger] self.states()[s]).len() == 4,
            forall|s: int, i: int|
                0 <= s < self.states().len() && 0 <= i < 4 ==> {
                    &&& 0 <= (#[trigger] self.states()[s][i]).0 < 4
                    &&& 0 <= self.states()[s][i].1 < 4
                },
    {
    }

    /// The side of the square box in which the layouts of this kind turn.
    pub open spec fn box_side(self) -> int {
        match self {
            BlockKind::I => 4,
            BlockKind::O => 2,
            _ => 3,
        }
    }

    /// The cell that a cell of this kind's box comes to lie on when the box
    /// makes a quarter turn clockwise.
    pub open spec fn quarter_turn(self, cell: (int, int)) -> (int, int) {
        (cell.1, self.box_side() - 1 - cell.0)
    }

    /// Whether the layout `state` holds the cell `cell`.
    pub open spec fn state_holds(self, state: int, cell: (int, int)) -> bool {
        exists|i: int| 0 <= i < 4 && #[trigger] self.states()[state][i] == cell
    }

    /// The state that follows `state`; the last is followed by the first.
    pub open spec fn next_state(self, state: int) -> int {
        if state + 1 == self.states().len() {
            0
        } else {
            state + 1
        }
    }

    /// The layouts of a kind are its orientations a quarter turn apart: every
    /// cell of a layout, turned clockwise by a quarter in the kind's box, is a
    /// cell of the layout that follows, and no two cells of a layout are the
    /// same. So each layout is, as a set of cells, the quarter turn of the one
    /// before it.
    pub proof fn lemma_states_are_quarter_turns(self, state: int, i: int)
        requires
            0 <= state < self.states().len(),
            0 <= i < 4,
        ensures
            self.state_holds(self.next_state(state), self.quarter_turn(self.states()[state][i])),
            forall|j: int| 0 <= j < 4 && j != i ==> self.states()[state][j] != self.states()[state][i],
    {
        let next = self.states()[self.next_state(state)];
        let turned = self.quarter_turn(self.states()[state][i]);
        assert(next[0] == turned || next[1] == turned || next[2] == turned || next[3] == turned);
    }

    /// A new block of any kind lies in the top two rows of the board, between
    /// columns 3 and 6.
    pub proof fn lemma_spawn_place(self)
        ensures
            self.spawn().wf(),
            forall|i: int|
                0 <= i < 4 ==> {
                    &&& 0 <= (#[trigger] self.spawn().cell(i)).0 < 2
                    &&& 3 <= self.spawn().cell(i).1 < 7
                },
    {
    }

    /// A block of this kind is well formed, whatever its state and place.
    pub proof fn lemma_has_wf(self, piece: Piece)
        requires
            self.has(piece),
        ensures
            piece.wf(),
            piece.states.len() <= 4,
    {
        self.lemma_catalog();
    }

    /// For a block of any kind, in any of the kind's states: a rotation and
    /// its undoing cancel each other, and as many rotations as the kind has
    /// states bring the block back to the state it started in.
    pub proof fn lemma_rotation_laws(self, piece: Piece)
        requires
            self.has(piece),
        ensures
            piece.rotated().unrotated() == piece,
            piece.unrotated().rotated() == piece,
            piece.rotated_by(self.states().len()) == piece,
    {
        self.lemma_has_wf(piece);
        piece.lemma_rotate_then_undo();
        piece.lemma_undo_then_rotate();
        piece.lemma_full_turn();
    }

    /// The full bag.
    pub fn get_all_blocks() -> (kinds: Vec<BlockKind>)
        ensures
            kinds@ == BlockKind::all(),
    {
        vec![
            BlockKind::I,
            BlockKind::J,
            BlockKind::L,
            BlockKind::O,
            BlockKind::S,
            BlockKind::T,
            BlockKind::Z,
        ]
    }

    /// A new block of this kind.
    pub fn block(self) -> (block: Block)
        ensures
            block.wf(),
            block@ == self.spawn(),
    {
        match self {
            BlockKind::L => BlockKind::lblock(),
            BlockKind::J => BlockKind::jblock(),
            BlockKind::I => BlockKind::iblock(),
            BlockKind::O => BlockKind::oblock(),
            BlockKind::S => BlockKind::sblock(),
            BlockKind::T => BlockKind::tblock(),
            BlockKind::Z => BlockKind::zblock(),
        }
    }

    /// The L piece.
    pub fn lblock() -> (block: Block)
        ensures
            block.wf(),
            block@ == BlockKind::L.spawn(),
    {
        let mut block = Block {
            id: 1,
            cells: [
                [
                    Position::new(0, 2),
                    Position::new(1, 0),
                    Position::new(1, 1),
                    Position::new(1, 2),
                ],
                [
                    Position::new(0, 1),
                    Position::new(1, 1),
                    Position::new(2, 1),
                    Position::new(2, 2),
                ],
                [
                    Position::new(1, 0),
                    Position::new(1, 1),
                    Position::new(1, 2),
                    Position::new(2, 0),
                ],
                [
                    Position::new(0, 0),
                    Position::new(0, 1),
                    Position::new(1, 1),
                    Position::new(2, 1),
                ],
            ],
            state_count: 4,
            ..Block::new()
        };
        block.move_by(0, 3);
        assert(block@.states =~~= BlockKind::L.states());
        block
    }

    /// The J piece.
    pub fn jblock() -> (block: Block)
        ensures
            block.wf(),
            block@ == BlockKind::J.spawn(),
    {
        let mut block = Block {
            id: 2,
            cells: [
                [
                    Position::new(0, 0),
                    Position::new(1, 0),
                    Position::new(1, 1),
                    Position::new(1, 2),
                ],
                [
                    Position::new(0, 1),
                    Position::new(0, 2),
                    Position::new(1, 1),
                    Position::new(2, 1),
                ],
                [
                    Position::new(1, 0),
                    Position::new(1, 1),
                    Position::new(1, 2),
                    Position::new(2, 2),
                ],
                [
                    Position::new(0, 1),
                    Position::new(1, 1),
                    Position::new(2, 0),
                    Position::new(2, 1),
                ],
            ],
            state_count: 4,
            ..Block::new()
        };
        block.move_by(0, 3);
        assert(block@.states =~~= BlockKind::J.states());
        block
    }

    /// The straight piece.
    pub fn iblock() -> (block: Block)
        ensures
            block.wf(),
            block@ == BlockKind::I.spawn(),
    {
        let mut block = Block {
            id: 3,
            cells: [
                [
                    Position::new(1, 0),
                    Position::new(1, 1),
                    Position::new(1, 2),
                    Position::new(1, 3),
                ],
                [
                    Position::new(0, 2),
                    Position::new(1, 2),
                    Position::new(2, 2),
                    Position::new(3, 2),
                ],
                [
                    Position::new(2, 0),
                    Position::new(2, 1),
                    Position::new(2, 2),
                    Position::new(2, 3),
                ],
                [
                    Position::new(0, 1),
                    Position::new(1, 1),
                    Position::new(2, 1),
                    Position::new(3, 1),
                ],
            ],
            state_count: 4,
            ..Block::new()
        };
        block.move_by(-1, 3);
        assert(block@.states =~~= BlockKind::I.states());
        block
    }

    /// The square piece.
    pub fn oblock() -> (block: Block)
        ensures
            block.wf(),
            block@ == BlockKind::O.spawn(),
    {
        let mut block = Block {
            id: 4,
            cells: [
                [
                    Position::new(0, 0),
                    Position::new(0, 1),
                    Position::new(1, 0),
                    Position::new(1, 1),
                ],
                [
                    Position::new(0, 0),
                    Position::new(0, 1),
                    Position::new(1, 0),
                    Position::new(1, 1),
                ],
                [
                    Position::new(0, 0),
                    Position::new(0, 1),
                    Position::new(1, 0),
                    Position::new(1, 1),
                ],
                [
                    Position::new(0, 0),
                    Position::new(0, 1),
                    Position::new(1, 0),
                    Position::new(1, 1),
                ],
            ],
            state_count: 1,
            ..Block::new()
        };
        block.move_by(0, 4);
        assert(block@.states =~~= BlockKind::O.states());
        block
    }

    /// The S piece.
    pub fn sblock() -> (block: Block)
        ensures
            block.wf(),
            block@ == BlockKind::S.spawn(),
    {
        let mut block = Block {
            id: 5,
            cells: [
                [
                    Position::new(0, 1),
                    Position::new(0, 2),
                    Position::new(1, 0),
                    Position::new(1, 1),
                ],
                [
                    Position::new(0, 1),
                    Position::new(1, 1),
                    Position::new(1, 2),
                    Position::new(2, 2),
                ],
                [
                    Position::new(1, 1),
                    Position::new(1, 2),
                    Position::new(2, 0),
                    Position::new(2, 1),
                ],
                [
                    Position::new(0, 0),
                    Position::new(1, 0),
                    Position::new(1, 1),
                    Position::new(2, 1),
                ],
            ],
            state_count: 4,
            ..Block::new()
        };
        block.move_by(0, 3);
        assert(block@.states =~~= BlockKind::S.states());
        block
    }

    /// The T piece.
    pub fn tblock() -> (block: Block)
        ensures
            block.wf(),
            block@ == BlockKind::T.spawn(),
    {
        let mut block = Block {
            id: 6,
            cells: [
                [
                    Position::new(0, 1),
                    Position::new(1, 0),
                    Position::new(1, 1),
                    Position::new(1, 2),
                ],
                [
                    Position::new(0, 1),
                    Position::new(1, 1),
                    Position::new(1, 2),
                    Position::new(2, 1),
                ],
                [
                    Position::new(1, 0),
                    Position::new(1, 1),
                    Position::new(1, 2),
                    Position::new(2, 1),
                ],
                [
                    Position::new(0, 1),
                    Position::new(1, 0),
                    Position::new(1, 1),
                    Position::new(2, 1),
                ],
            ],
            state_count: 4,
            ..Block::new()
        };
        block.move_by(0, 3);
        assert(block@.states =~~= BlockKind::T.states());
        block
    }

    /// The Z piece.
    pub fn zblock() -> (block: Block)
        ensures
            block.wf(),
            block@ == BlockKind::Z.spawn(),
    {
        let mut block = Block {
            id: 7,
            cells: [
                [
                    Position::new(0, 0),
                    Position::new(0, 1),
                    Position::new(1, 1),
                    Position::new(1, 2),
                ],
                [
                    Position::new(0, 2),
                    Position::new(1, 1),
                    Position::new(1, 2),
                    Position::new(2, 1),
                ],
                [
                    Position::new(1, 0),
                    Position::new(1, 1),
                    Position::new(2, 1),
                    Position::new(2, 2),
                ],
                [
                    Position::new(0, 1),
                    Position::new(1, 0),
                    Position::new(1, 1),
                    Position::new(2, 0),
                ],
            ],
            state_count: 4,
            ..Block::new()
        };
        block.move_by(0, 3);
        assert(block@.states =~~= BlockKind::Z.states());
        block
    }
}

} // verus!
