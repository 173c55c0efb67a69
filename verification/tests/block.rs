use tetris::block::{Block, BlockKind};
use tetris::canvas::Rect;
use tetris::colors::{get_cell_colors, Color};
use tetris::position::Position;

fn all_kinds() -> Vec<BlockKind> {
    BlockKind::get_all_blocks()
}

fn cells_of(block: &Block) -> Vec<(i32, i32)> {
    block.get_cell_positions().iter().map(|p| (p.row, p.column)).collect()
}

#[test]
fn position_new_keeps_row_and_column() {
    let position = Position::new(7, -2);
    assert_eq!(position.row, 7);
    assert_eq!(position.column, -2);
    assert_eq!(position, Position { row: 7, column: -2 });
}

#[test]
fn blank_block_has_no_state_and_no_offset() {
    let block = Block::new();
    assert_eq!(block.id, 0);
    assert_eq!(block.state_count, 0);
    assert_eq!(block.rotation_state, 0);
    assert_eq!(block.row_offset, 0);
    assert_eq!(block.column_offset, 0);
}

#[test]
fn full_bag_holds_the_seven_kinds_in_order() {
    assert_eq!(
        all_kinds(),
        vec![
            BlockKind::I,
            BlockKind::J,
            BlockKind::L,
            BlockKind::O,
            BlockKind::S,
            BlockKind::T,
            BlockKind::Z,
        ]
    );
}

#[test]
fn kinds_have_their_ids() {
    assert_eq!(BlockKind::lblock().id, 1);
    assert_eq!(BlockKind::jblock().id, 2);
    assert_eq!(BlockKind::iblock().id, 3);
    assert_eq!(BlockKind::oblock().id, 4);
    assert_eq!(BlockKind::sblock().id, 5);
    assert_eq!(BlockKind::tblock().id, 6);
    assert_eq!(BlockKind::zblock().id, 7);
}

#[test]
fn block_of_kind_is_the_kind_constructor() {
    assert_eq!(BlockKind::L.block(), BlockKind::lblock());
    assert_eq!(BlockKind::J.block(), BlockKind::jblock());
    assert_eq!(BlockKind::I.block(), BlockKind::iblock());
    assert_eq!(BlockKind::O.block(), BlockKind::oblock());
    assert_eq!(BlockKind::S.block(), BlockKind::sblock());
    assert_eq!(BlockKind::T.block(), BlockKind::tblock());
    assert_eq!(BlockKind::Z.block(), BlockKind::zblock());
}

#[test]
fn square_has_one_state_and_the_others_four() {
    for kind in all_kinds() {
        let expected: usize = if kind == BlockKind::O { 1 } else { 4 };
        assert_eq!(kind.block().state_count, expected);
    }
}

#[test]
fn spawn_cells_of_each_kind() {
    assert_eq!(cells_of(&BlockKind::lblock()), vec![(0, 5), (1, 3), (1, 4), (1, 5)]);
    assert_eq!(cells_of(&BlockKind::jblock()), vec![(0, 3), (1, 3), (1, 4), (1, 5)]);
    assert_eq!(cells_of(&BlockKind::iblock()), vec![(0, 3), (0, 4), (0, 5), (0, 6)]);
    assert_eq!(cells_of(&BlockKind::oblock()), vec![(0, 4), (0, 5), (1, 4), (1, 5)]);
    assert_eq!(cells_of(&BlockKind::sblock()), vec![(0, 4), (0, 5), (1, 3), (1, 4)]);
    assert_eq!(cells_of(&BlockKind::tblock()), vec![(0, 4), (1, 3), (1, 4), (1, 5)]);
    assert_eq!(cells_of(&BlockKind::zblock()), vec![(0, 3), (0, 4), (1, 4), (1, 5)]);
}

#[test]
fn spawn_offsets_centre_the_piece() {
    for kind in all_kinds() {
        let block = kind.block();
        let row: i32 = if kind == BlockKind::I { -1 } else { 0 };
        let column: i32 = if kind == BlockKind::O { 4 } else { 3 };
        assert_eq!(block.row_offset, row);
        assert_eq!(block.column_offset, column);
        assert_eq!(block.rotation_state, 0);
    }
}

#[test]
fn layouts_of_the_t_piece() {
    let mut block = BlockKind::tblock();
    block.move_by(0, -3);
    assert_eq!(cells_of(&block), vec![(0, 1), (1, 0), (1, 1), (1, 2)]);
    block.rotate();
    assert_eq!(cells_of(&block), vec![(0, 1), (1, 1), (1, 2), (2, 1)]);
    block.rotate();
    assert_eq!(cells_of(&block), vec![(1, 0), (1, 1), (1, 2), (2, 1)]);
    block.rotate();
    assert_eq!(cells_of(&block), vec![(0, 1), (1, 0), (1, 1), (2, 1)]);
}

#[test]
fn layouts_of_the_straight_piece() {
    let mut block = BlockKind::iblock();
    block.move_by(1, -3);
    assert_eq!(cells_of(&block), vec![(1, 0), (1, 1), (1, 2), (1, 3)]);
    block.rotate();
    assert_eq!(cells_of(&block), vec![(0, 2), (1, 2), (2, 2), (3, 2)]);
    block.rotate();
    assert_eq!(cells_of(&block), vec![(2, 0), (2, 1), (2, 2), (2, 3)]);
    block.rotate();
    assert_eq!(cells_of(&block), vec![(0, 1), (1, 1), (2, 1), (3, 1)]);
}

#[test]
fn layouts_of_the_l_j_s_and_z_pieces() {
    let expected: Vec<(Block, Vec<Vec<(i32, i32)>>)> = vec![
        (
            BlockKind::lblock(),
            vec![
                vec![(0, 2), (1, 0), (1, 1), (1, 2)],
                vec![(0, 1), (1, 1), (2, 1), (2, 2)],
                vec![(1, 0), (1, 1), (1, 2), (2, 0)],
                vec![(0, 0), (0, 1), (1, 1), (2, 1)],
            ],
        ),
        (
            BlockKind::jblock(),
            vec![
                vec![(0, 0), (1, 0), (1, 1), (1, 2)],
                vec![(0, 1), (0, 2), (1, 1), (2, 1)],
                vec![(1, 0), (1, 1), (1, 2), (2, 2)],
                vec![(0, 1), (1, 1), (2, 0), (2, 1)],
            ],
        ),
        (
            BlockKind::sblock(),
            vec![
                vec![(0, 1), (0, 2), (1, 0), (1, 1)],
                vec![(0, 1), (1, 1), (1, 2), (2, 2)],
                vec![(1, 1), (1, 2), (2, 0), (2, 1)],
                vec![(0, 0), (1, 0), (1, 1), (2, 1)],
            ],
        ),
        (
            BlockKind::zblock(),
            vec![
                vec![(0, 0), (0, 1), (1, 1), (1, 2)],
                vec![(0, 2), (1, 1), (1, 2), (2, 1)],
                vec![(1, 0), (1, 1), (2, 1), (2, 2)],
                vec![(0, 1), (1, 0), (1, 1), (2, 0)],
            ],
        ),
    ];
    for (spawned, layouts) in expected {
        let mut block = spawned;
        block.move_by(0, -3);
        for layout in layouts {
            assert_eq!(cells_of(&block), layout);
            block.rotate();
        }
    }
}

#[test]
fn move_by_shifts_every_cell() {
    let mut block = BlockKind::oblock();
    block.move_by(5, -2);
    assert_eq!(block.row_offset, 5);
    assert_eq!(block.column_offset, 2);
    assert_eq!(cells_of(&block), vec![(5, 2), (5, 3), (6, 2), (6, 3)]);
    block.move_by(-7, -4);
    assert_eq!(cells_of(&block), vec![(-2, -2), (-2, -1), (-1, -2), (-1, -1)]);
}

#[test]
fn move_by_does_not_check_bounds() {
    let mut block = BlockKind::tblock();
    block.move_by(100, 100);
    assert_eq!(cells_of(&block), vec![(100, 104), (101, 103), (101, 104), (101, 105)]);
}

#[test]
fn cell_positions_follow_the_latest_state() {
    let mut block = BlockKind::jblock();
    let before = cells_of(&block);
    block.move_by(1, 0);
    let after = cells_of(&block);
    for i in 0..4 {
        assert_eq!(after[i], (before[i].0 + 1, before[i].1));
    }
}

#[test]
fn rotate_then_undo_restores_every_state_of_every_kind() {
    for kind in all_kinds() {
        let mut block = kind.block();
        for _ in 0..block.state_count {
            let before = block;
            block.rotate();
            block.undo_rotation();
            assert_eq!(block, before);
            block.rotate();
        }
    }
}

#[test]
fn undo_then_rotate_restores_every_state_of_every_kind() {
    for kind in all_kinds() {
        let mut block = kind.block();
        for _ in 0..block.state_count {
            let before = block;
            block.undo_rotation();
            block.rotate();
            assert_eq!(block, before);
            block.rotate();
        }
    }
}

#[test]
fn rotating_state_count_times_is_a_full_turn() {
    for kind in all_kinds() {
        let mut block = kind.block();
        for start in 0..block.state_count {
            assert_eq!(block.rotation_state, start);
            let before = block;
            for _ in 0..block.state_count {
                block.rotate();
            }
            assert_eq!(block, before);
            block.rotate();
        }
    }
}

#[test]
fn rotation_index_wraps_at_both_ends() {
    let mut block = BlockKind::sblock();
    block.undo_rotation();
    assert_eq!(block.rotation_state, 3);
    block.rotate();
    assert_eq!(block.rotation_state, 0);
    block.rotate();
    block.rotate();
    block.rotate();
    assert_eq!(block.rotation_state, 3);
    block.rotate();
    assert_eq!(block.rotation_state, 0);
}

#[test]
fn square_rotates_onto_itself() {
    let mut block = BlockKind::oblock();
    let before = block;
    block.rotate();
    assert_eq!(block, before);
    assert_eq!(block.rotation_state, 0);
    block.undo_rotation();
    assert_eq!(block, before);
}

#[test]
fn rotation_keeps_the_offsets() {
    let mut block = BlockKind::zblock();
    block.move_by(4, 2);
    block.rotate();
    assert_eq!(block.row_offset, 4);
    assert_eq!(block.column_offset, 5);
    assert_eq!(block.rotation_state, 1);
}

#[test]
fn block_draw_gives_one_rectangle_per_cell() {
    let block = BlockKind::tblock();
    let purple = Color { r: 116, g: 0, b: 247, a: 255 };
    let cyan = Color { r: 21, g: 204, b: 209, a: 255 };
    assert_eq!(get_cell_colors()[6], cyan);
    assert_ne!(get_cell_colors()[6], purple);
    let tiles = block.draw(11, 11);
    assert_eq!(
        tiles,
        vec![
            Rect { x: 131, y: 11, width: 29, height: 29, color: cyan },
            Rect { x: 101, y: 41, width: 29, height: 29, color: cyan },
            Rect { x: 131, y: 41, width: 29, height: 29, color: cyan },
            Rect { x: 161, y: 41, width: 29, height: 29, color: cyan },
        ]
    );
}

#[test]
fn block_draw_uses_the_offsets() {
    let block = BlockKind::oblock();
    let yellow = Color { r: 237, g: 234, b: 4, a: 255 };
    let tiles = block.draw(255, 280);
    assert_eq!(
        tiles,
        vec![
            Rect { x: 375, y: 280, width: 29, height: 29, color: yellow },
            Rect { x: 405, y: 280, width: 29, height: 29, color: yellow },
            Rect { x: 375, y: 310, width: 29, height: 29, color: yellow },
            Rect { x: 405, y: 310, width: 29, height: 29, color: yellow },
        ]
    );
}

#[test]
fn blank_block_has_every_cell_at_the_origin() {
    let block = Block::new();
    for state in 0..4 {
        for cell in 0..4 {
            assert_eq!(block.cells[state][cell], Position { row: 0, column: 0 });
        }
    }
}

#[test]
fn third_state_of_the_l_piece_points_down() {
    let mut block = BlockKind::lblock();
    block.rotate();
    block.rotate();
    assert_eq!(block.rotation_state, 2);
    assert_eq!(cells_of(&block), vec![(1, 3), (1, 4), (1, 5), (2, 3)]);
    assert_ne!(cells_of(&block), cells_of(&BlockKind::lblock()));
}

#[test]
fn every_state_is_the_quarter_turn_of_the_one_before() {
    for kind in all_kinds() {
        let side: i32 = match kind {
            BlockKind::I => 4,
            BlockKind::O => 2,
            _ => 3,
        };
        let mut block = kind.block();
        block.move_by(-block.row_offset, -block.column_offset);
        for _ in 0..block.state_count {
            let mut turned: Vec<(i32, i32)> =
                cells_of(&block).iter().map(|cell| (cell.1, side - 1 - cell.0)).collect();
            block.rotate();
            let mut next = cells_of(&block);
            turned.sort();
            next.sort();
            assert_eq!(turned, next);
        }
    }
}

#[test]
fn the_four_states_of_a_kind_differ() {
    for kind in all_kinds() {
        let mut block = kind.block();
        let mut seen: Vec<Vec<(i32, i32)>> = Vec::new();
        for _ in 0..block.state_count {
            let cells = cells_of(&block);
            assert!(!seen.contains(&cells));
            seen.push(cells);
            block.rotate();
        }
    }
}
