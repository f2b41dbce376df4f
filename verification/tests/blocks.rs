use tetris::blocks::{bool_to_polarity, Block, BlockType};
use tetris::grid::Vec2;

const SHAPES: [BlockType; 7] = [
    BlockType::I,
    BlockType::J,
    BlockType::L,
    BlockType::O,
    BlockType::S,
    BlockType::T,
    BlockType::Z,
];

fn cells_of(block: &Block) -> Vec<(i64, i64)> {
    let mut cells: Vec<(i64, i64)> =
        block.occupied_cells(block.rotation).iter().map(|c| (c.x, c.y)).collect();
    cells.sort();
    cells
}

#[test]
fn polarity_is_plus_or_minus_one() {
    assert_eq!(bool_to_polarity(true), 1);
    assert_eq!(bool_to_polarity(false), -1);
}

#[test]
fn new_block_stands_at_the_spawn_point() {
    let block = Block::new(BlockType::T);
    assert_eq!(block.pos, Vec2::new(5, 0));
    assert_eq!(block.shape, BlockType::T);
    assert_eq!(block.rotation, 0);
    assert!(!block.is_ghost);
}

#[test]
fn every_state_of_every_shape_has_four_distinct_cells() {
    for shape in SHAPES {
        let block = Block::new(shape);
        for rotation in 0..9usize {
            let mut cells: Vec<(i64, i64)> =
                block.occupied_cells(rotation).iter().map(|c| (c.x, c.y)).collect();
            assert_eq!(cells.len(), 4);
            cells.sort();
            cells.dedup();
            assert_eq!(cells.len(), 4);
        }
    }
}

#[test]
fn rotation_index_is_read_modulo_the_state_count() {
    for shape in SHAPES {
        let block = Block::new(shape);
        let count = shape.rot_state_len();
        for rotation in 0..4usize {
            assert_eq!(
                block.occupied_cells(rotation)
                    .iter()
                    .map(|c| (c.x, c.y))
                    .collect::<Vec<(i64, i64)>>(),
                block.occupied_cells(rotation + 3 * count)
                    .iter()
                    .map(|c| (c.x, c.y))
                    .collect::<Vec<(i64, i64)>>()
            );
        }
    }
}

#[test]
fn state_counts() {
    assert_eq!(BlockType::O.rot_state_len(), 1);
    for shape in [BlockType::I, BlockType::J, BlockType::L, BlockType::S, BlockType::T, BlockType::Z] {
        assert_eq!(shape.rot_state_len(), 4);
    }
}

#[test]
fn t_piece_cells_at_spawn() {
    let block = Block::new(BlockType::T);
    assert_eq!(cells_of(&block), vec![(4, 1), (5, 0), (5, 1), (6, 1)]);
}

#[test]
fn o_piece_cells_at_spawn() {
    let block = Block::new(BlockType::O);
    assert_eq!(cells_of(&block), vec![(5, 0), (5, 1), (6, 0), (6, 1)]);
}

#[test]
fn i_piece_states() {
    let block = Block { pos: Vec2::new(0, 0), shape: BlockType::I, rotation: 0, is_ghost: false };
    let state = |rotation: usize| -> Vec<(i64, i64)> {
        block.occupied_cells(rotation).iter().map(|c| (c.x, c.y)).collect()
    };
    assert_eq!(state(0), vec![(-1, 1), (0, 1), (1, 1), (2, 1)]);
    assert_eq!(state(1), vec![(1, 0), (1, 1), (1, 2), (1, 3)]);
    assert_eq!(state(2), vec![(-1, 2), (0, 2), (1, 2), (2, 2)]);
    assert_eq!(state(3), vec![(0, 0), (0, 1), (0, 2), (0, 3)]);
}

#[test]
fn occupied_cells_follow_the_position() {
    let block = Block { pos: Vec2::new(-7, 30), shape: BlockType::S, rotation: 1, is_ghost: false };
    assert_eq!(cells_of(&block), vec![(-7, 30), (-7, 31), (-6, 31), (-6, 32)]);
}

#[test]
fn four_clockwise_turns_return() {
    for shape in SHAPES {
        let mut block = Block::new(shape);
        let start = cells_of(&block);
        for _ in 0..4 {
            block.rotate(true);
        }
        assert_eq!(block.rotation, 0);
        assert_eq!(cells_of(&block), start);
    }
}

#[test]
fn four_anticlockwise_turns_return() {
    for shape in SHAPES {
        let mut block = Block::new(shape);
        block.rotate(true);
        let index = block.rotation;
        let start = cells_of(&block);
        for _ in 0..4 {
            block.rotate(false);
        }
        assert_eq!(block.rotation, index);
        assert_eq!(cells_of(&block), start);
    }
}

#[test]
fn clockwise_turns_step_through_the_states() {
    let mut block = Block::new(BlockType::L);
    let mut seen = Vec::new();
    for _ in 0..5 {
        seen.push(block.rotation);
        block.rotate(true);
    }
    assert_eq!(seen, vec![0, 1, 2, 3, 0]);
}

#[test]
fn anticlockwise_turn_from_the_first_state_wraps() {
    let mut block = Block::new(BlockType::J);
    block.rotate(false);
    assert_eq!(block.rotation, 3);
    block.rotate(true);
    assert_eq!(block.rotation, 0);
}

#[test]
fn o_piece_has_one_state() {
    let mut block = Block::new(BlockType::O);
    block.rotate(true);
    assert_eq!(block.rotation, 0);
    block.rotate(false);
    assert_eq!(block.rotation, 0);
}

#[test]
fn rotation_indexes_give_current_and_next() {
    let mut block = Block::new(BlockType::Z);
    assert_eq!(block.get_rotation_indexes(true), (0, 1));
    assert_eq!(block.get_rotation_indexes(false), (0, 3));
    block.rotation = 3;
    assert_eq!(block.get_rotation_indexes(true), (3, 0));
    assert_eq!(block.get_rotation_indexes(false), (3, 2));
    block.rotation = usize::MAX;
    assert_eq!(block.get_rotation_indexes(true), (usize::MAX, 0));
}

#[test]
fn rotate_does_not_move_the_piece() {
    let mut block = Block { pos: Vec2::new(3, 9), shape: BlockType::T, rotation: 2, is_ghost: true };
    block.rotate(true);
    assert_eq!(block.pos, Vec2::new(3, 9));
    assert_eq!(block.shape, BlockType::T);
    assert_eq!(block.rotation, 3);
    assert!(block.is_ghost);
}

#[test]
fn pieces_inside_and_outside_the_field() {
    let inside = |shape: BlockType, x: i64, y: i64, rotation: usize| -> bool {
        Block { pos: Vec2::new(x, y), shape, rotation, is_ghost: false }.lies_in_field()
    };
    assert!(inside(BlockType::O, 5, 0, 0));
    assert!(inside(BlockType::O, 1, 18, 0));
    assert!(inside(BlockType::O, 9, 18, 0));
    assert!(!inside(BlockType::O, 0, 18, 0));
    assert!(!inside(BlockType::O, 10, 18, 0));
    assert!(!inside(BlockType::O, 5, 19, 0));
    assert!(!inside(BlockType::O, 5, -1, 0));
    assert!(inside(BlockType::I, 2, -1, 0));
    assert!(!inside(BlockType::I, 2, -1, 1));
    assert!(inside(BlockType::I, 0, 16, 1));
    assert!(!inside(BlockType::I, 0, 17, 1));
    assert!(!inside(BlockType::T, i64::MAX, i64::MAX, 3));
    assert!(!inside(BlockType::T, i64::MIN, i64::MIN, 3));
}

#[test]
fn clone_is_never_a_ghost() {
    let ghost = Block { pos: Vec2::new(2, 7), shape: BlockType::S, rotation: 1, is_ghost: true };
    let copy = ghost.clone();
    assert_eq!(copy.pos, Vec2::new(2, 7));
    assert_eq!(copy.shape, BlockType::S);
    assert_eq!(copy.rotation, 1);
    assert!(!copy.is_ghost);
}

#[test]
fn wall_kicks_of_t_from_spawn_clockwise() {
    assert_eq!(
        BlockType::T.get_wall_kick_data(0, 1),
        vec![Vec2::new(-1, 0), Vec2::new(-1, -1), Vec2::new(0, 2), Vec2::new(-1, 2)]
    );
    assert_eq!(
        BlockType::T.get_wall_kick_data(0, 3),
        vec![Vec2::new(1, 0), Vec2::new(1, -1), Vec2::new(0, 2), Vec2::new(1, 2)]
    );
}

#[test]
fn wall_kicks_of_i_differ_from_the_others() {
    assert_eq!(
        BlockType::I.get_wall_kick_data(0, 1),
        vec![Vec2::new(-2, 0), Vec2::new(1, 0), Vec2::new(-2, 1), Vec2::new(1, -2)]
    );
    assert_eq!(
        BlockType::I.get_wall_kick_data(1, 0),
        vec![Vec2::new(2, 0), Vec2::new(-1, 0), Vec2::new(2, -1), Vec2::new(-1, 2)]
    );
}

#[test]
fn wall_kicks_exist_for_every_turn() {
    for shape in [BlockType::I, BlockType::J, BlockType::L, BlockType::S, BlockType::T, BlockType::Z] {
        for from in 0..4usize {
            assert_eq!(shape.get_wall_kick_data(from, (from + 1) % 4).len(), 4);
            assert_eq!(shape.get_wall_kick_data(from, (from + 3) % 4).len(), 4);
            assert!(shape.get_wall_kick_data(from, (from + 2) % 4).is_empty());
            assert!(shape.get_wall_kick_data(from, from).is_empty());
        }
    }
    assert!(BlockType::O.get_wall_kick_data(0, 0).is_empty());
}

#[test]
fn opposite_turns_have_opposite_kicks() {
    for shape in [BlockType::I, BlockType::J, BlockType::L, BlockType::S, BlockType::T, BlockType::Z] {
        for from in 0..4usize {
            let to = (from + 1) % 4;
            let there = shape.get_wall_kick_data(from, to);
            let back = shape.get_wall_kick_data(to, from);
            for k in 0..4 {
                assert_eq!(there[k].x, -back[k].x);
                assert_eq!(there[k].y, -back[k].y);
            }
        }
    }
}

#[test]
fn bag_holds_every_shape_once() {
    for _ in 0..200 {
        let bag = BlockType::bag();
        for shape in SHAPES {
            assert_eq!(bag.iter().filter(|s| **s == shape).count(), 1);
        }
    }
}

#[test]
fn bags_come_in_different_orders() {
    let first = BlockType::bag();
    let mut differs = false;
    let mut leaves_catalogue_order = first != SHAPES;
    for _ in 0..100 {
        let bag = BlockType::bag();
        if bag != first {
            differs = true;
        }
        if bag != SHAPES {
            leaves_catalogue_order = true;
        }
    }
    assert!(differs);
    assert!(leaves_catalogue_order);
}
