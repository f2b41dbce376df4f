use tetris::block_manager::BlockManager;
use tetris::blocks::{Block, BlockType};
use tetris::collision_manager::CollisionManager;
use tetris::game::{Game, Intent, Signal, GRAVITY_PERIOD, SCORE_LIMIT, TOP_LIMIT};
use tetris::grid::Vec2;

const O_FIRST: [BlockType; 7] = [
    BlockType::O,
    BlockType::I,
    BlockType::T,
    BlockType::J,
    BlockType::L,
    BlockType::S,
    BlockType::Z,
];

const I_FIRST: [BlockType; 7] = [
    BlockType::I,
    BlockType::J,
    BlockType::L,
    BlockType::O,
    BlockType::S,
    BlockType::T,
    BlockType::Z,
];

fn settled(game: &Game) -> Vec<(i64, i64)> {
    let mut cells: Vec<(i64, i64)> =
        game.collision_manager().settled_cells().iter().map(|c| (c.x, c.y)).collect();
    cells.sort();
    cells
}

fn step(game: &mut Game, intent: Option<Intent>) -> Signal {
    assert!(game.is_valid());
    assert!(game.can_advance());
    let signal = game.frame(intent);
    assert!(game.is_valid());
    signal
}

fn position(game: &Game) -> Vec2 {
    game.block_manager().block().pos
}

fn game_on(cells: &[(i64, i64)], shape: BlockType, x: i64, y: i64, rotation: usize) -> Game {
    let mut board = CollisionManager::new();
    for cell in cells {
        assert!(board.place(Vec2::new(cell.0, cell.1), BlockType::J));
    }
    let mut manager = BlockManager::with_bag(30, 3, O_FIRST).unwrap();
    manager.set_block(Block { pos: Vec2::new(x, y), shape, rotation, is_ghost: false });
    Game::resume(board, manager).unwrap()
}

fn row_without(y: i64, gaps: &[i64]) -> Vec<(i64, i64)> {
    (1..=10).filter(|x| !gaps.contains(x)).map(|x| (x, y)).collect()
}

#[test]
fn limits_leave_room() {
    assert_eq!(GRAVITY_PERIOD, 12);
    assert!(SCORE_LIMIT < i64::MAX - 2_000_000_000_000);
    assert!(TOP_LIMIT < -1_000_000);
}

#[test]
fn new_game_starts_empty() {
    let game = Game::new(30, 3);
    assert_eq!(game.score(), 0);
    assert!(!game.is_over());
    assert!(game.can_advance());
    assert!(settled(&game).is_empty());
    assert!(game.alert_display().messages().is_empty());
    assert_eq!(game.alert_display().pos(), Vec2::new(12, 7));
    assert_eq!(position(&game), Vec2::new(5, 0));
    assert_eq!(game.block_manager().next_pieces().len(), 3);
    assert_eq!(game.block_manager().held_piece(), None);
    assert_eq!(game.block_manager().placing_cooldown(), 30);
}

#[test]
fn a_game_needs_a_whole_bag() {
    assert!(Game::with_bag(30, 3, [BlockType::S; 7]).is_none());
    assert!(Game::with_bag(30, 3, O_FIRST).is_some());
}

#[test]
fn o_piece_moved_right_three_times_and_hard_dropped() {
    let mut game = Game::with_bag(30, 3, O_FIRST).unwrap();
    assert_eq!(game.block_manager().block().shape, BlockType::O);
    assert_eq!(game.block_manager().block().rotation, 0);
    for moved in 1..=3 {
        assert_eq!(step(&mut game, Some(Intent::MoveRight)), Signal::Continue);
        assert_eq!(position(&game), Vec2::new(5 + moved, 0));
    }
    assert_eq!(game.score(), 0);
    assert_eq!(step(&mut game, Some(Intent::HardDrop)), Signal::Continue);
    assert_eq!(settled(&game), vec![(8, 18), (8, 19), (9, 18), (9, 19)]);
    assert_eq!(game.score(), 18);
    assert_eq!(game.block_manager().block().shape, BlockType::I);
    assert_eq!(position(&game), Vec2::new(5, 0));
    assert!(game.alert_display().messages().is_empty());
    assert!(!game.is_over());
}

#[test]
fn gravity_moves_the_piece_every_twelfth_frame() {
    let mut game = Game::with_bag(30, 3, O_FIRST).unwrap();
    for _ in 0..11 {
        assert_eq!(step(&mut game, None), Signal::Continue);
        assert_eq!(position(&game), Vec2::new(5, 0));
    }
    step(&mut game, None);
    assert_eq!(position(&game), Vec2::new(5, 1));
    for _ in 0..11 {
        step(&mut game, None);
        assert_eq!(position(&game), Vec2::new(5, 1));
    }
    step(&mut game, None);
    assert_eq!(position(&game), Vec2::new(5, 2));
    assert_eq!(game.score(), 0);
}

#[test]
fn soft_drop_moves_every_second_frame_and_scores() {
    let mut game = Game::with_bag(30, 3, O_FIRST).unwrap();
    step(&mut game, Some(Intent::SoftDrop));
    assert_eq!(position(&game), Vec2::new(5, 0));
    assert_eq!(game.score(), 0);
    step(&mut game, Some(Intent::SoftDrop));
    assert_eq!(position(&game), Vec2::new(5, 1));
    assert_eq!(game.score(), 1);
    step(&mut game, Some(Intent::SoftDrop));
    step(&mut game, Some(Intent::SoftDrop));
    assert_eq!(position(&game), Vec2::new(5, 2));
    assert_eq!(game.score(), 2);
}

#[test]
fn a_resting_piece_locks_when_its_delay_runs_out() {
    let mut game = Game::with_bag(3, 3, O_FIRST).unwrap();
    for _ in 0..36 {
        step(&mut game, Some(Intent::SoftDrop));
    }
    assert_eq!(position(&game), Vec2::new(5, 18));
    assert_eq!(game.score(), 18);
    step(&mut game, None);
    assert_eq!(game.block_manager().placing_cooldown(), 2);
    step(&mut game, Some(Intent::SoftDrop));
    assert_eq!(game.block_manager().placing_cooldown(), 1);
    assert!(settled(&game).is_empty());
    assert_eq!(game.block_manager().block().shape, BlockType::O);
    step(&mut game, None);
    assert_eq!(settled(&game), vec![(5, 18), (5, 19), (6, 18), (6, 19)]);
    assert_eq!(game.block_manager().block().shape, BlockType::I);
    assert_eq!(game.block_manager().placing_cooldown(), 3);
    assert_eq!(game.score(), 18);
}

#[test]
fn the_lock_delay_is_not_restored_by_moving_off() {
    let mut game = game_on(&[(5, 19), (6, 19)], BlockType::O, 5, 17, 0);
    step(&mut game, None);
    step(&mut game, None);
    assert_eq!(game.block_manager().placing_cooldown(), 28);
    step(&mut game, Some(Intent::MoveRight));
    step(&mut game, Some(Intent::MoveRight));
    assert_eq!(position(&game), Vec2::new(7, 17));
    assert_eq!(game.block_manager().placing_cooldown(), 27);
    step(&mut game, Some(Intent::Pause));
    assert_eq!(game.block_manager().placing_cooldown(), 27);
}

#[test]
fn moves_and_turns_are_taken_from_the_intent() {
    let mut game = Game::with_bag(30, 3, I_FIRST).unwrap();
    step(&mut game, Some(Intent::MoveLeft));
    assert_eq!(position(&game), Vec2::new(4, 0));
    step(&mut game, Some(Intent::RotateCw));
    assert_eq!(game.block_manager().block().rotation, 1);
    step(&mut game, Some(Intent::RotateCcw));
    step(&mut game, Some(Intent::RotateCcw));
    assert_eq!(game.block_manager().block().rotation, 3);
    assert_eq!(position(&game), Vec2::new(4, 0));
}

#[test]
fn the_ghost_is_kept_up_to_date() {
    let mut game = Game::with_bag(30, 3, O_FIRST).unwrap();
    step(&mut game, Some(Intent::MoveLeft));
    assert_eq!(game.block_manager().ghost_block().pos, Vec2::new(4, 18));
    assert!(game.block_manager().ghost_block().is_ghost);
    assert_eq!(game.block_manager().ghost_block().shape, BlockType::O);
    assert!(settled(&game).is_empty());
}

#[test]
fn signals_ask_the_caller_to_pause_or_change_the_volume() {
    let mut game = Game::with_bag(30, 3, O_FIRST).unwrap();
    assert_eq!(step(&mut game, Some(Intent::Pause)), Signal::Pause);
    assert_eq!(step(&mut game, Some(Intent::VolumeUp)), Signal::VolumeUp);
    assert_eq!(step(&mut game, Some(Intent::VolumeDown)), Signal::VolumeDown);
    assert_eq!(step(&mut game, Some(Intent::SoftDrop)), Signal::Continue);
    assert_eq!(step(&mut game, None), Signal::Continue);
}

#[test]
fn hold_through_the_game() {
    let mut game = Game::with_bag(30, 3, O_FIRST).unwrap();
    assert_eq!(step(&mut game, Some(Intent::Hold)), Signal::Continue);
    assert_eq!(game.block_manager().held_piece(), Some(BlockType::O));
    assert_eq!(game.block_manager().block().shape, BlockType::I);
    step(&mut game, Some(Intent::MoveLeft));
    step(&mut game, Some(Intent::Hold));
    assert_eq!(game.block_manager().held_piece(), Some(BlockType::O));
    assert_eq!(game.block_manager().block().shape, BlockType::I);
    assert_eq!(position(&game), Vec2::new(4, 0));
    step(&mut game, Some(Intent::HardDrop));
    assert_eq!(game.block_manager().block().shape, BlockType::T);
    step(&mut game, Some(Intent::Hold));
    assert_eq!(game.block_manager().held_piece(), Some(BlockType::T));
    assert_eq!(game.block_manager().block().shape, BlockType::O);
}

#[test]
fn three_pieces_fill_a_row() {
    let mut game = Game::with_bag(30, 3, I_FIRST).unwrap();
    for _ in 0..3 {
        step(&mut game, Some(Intent::MoveLeft));
    }
    step(&mut game, Some(Intent::HardDrop));
    assert_eq!(settled(&game), vec![(1, 19), (2, 19), (3, 19), (4, 19)]);
    assert_eq!(game.score(), 18);
    assert_eq!(game.block_manager().block().shape, BlockType::J);
    step(&mut game, Some(Intent::MoveRight));
    assert_eq!(position(&game), Vec2::new(6, 1));
    step(&mut game, Some(Intent::HardDrop));
    assert_eq!(game.score(), 35);
    assert_eq!(game.block_manager().block().shape, BlockType::L);
    for _ in 0..4 {
        step(&mut game, Some(Intent::MoveRight));
    }
    assert_eq!(position(&game), Vec2::new(9, 1));
    assert!(game.alert_display().messages().is_empty());
    step(&mut game, Some(Intent::HardDrop));
    assert_eq!(settled(&game), vec![(5, 19), (10, 19)]);
    assert_eq!(game.score(), 152);
    assert_eq!(game.alert_display().messages(), vec![String::from("Single!")]);
    assert_eq!(game.block_manager().block().shape, BlockType::O);
}

#[test]
fn alerts_age_with_the_frames_drawn() {
    let mut game = game_on(&row_without(19, &[5, 6]), BlockType::O, 5, 3, 0);
    step(&mut game, Some(Intent::HardDrop));
    assert_eq!(game.score(), 15 + 100);
    assert_eq!(game.alert_display().messages(), vec![String::from("Single!")]);
    for _ in 0..19 {
        game.age_alerts();
    }
    assert_eq!(game.alert_display().messages(), vec![String::from("Single!")]);
    game.age_alerts();
    assert!(game.alert_display().messages().is_empty());
    assert_eq!(game.score(), 115);
    assert_eq!(settled(&game), vec![(5, 19), (6, 19)]);
}

#[test]
fn four_rows_at_once_are_a_tetris() {
    let mut cells = Vec::new();
    for y in 16..20 {
        cells.extend(row_without(y, &[10]));
    }
    let mut game = game_on(&cells, BlockType::I, 10, 10, 3);
    step(&mut game, Some(Intent::HardDrop));
    assert!(settled(&game).is_empty());
    assert_eq!(game.score(), 6 + 800);
    assert_eq!(game.alert_display().messages(), vec![String::from("Tetris!")]);
}

#[test]
fn rewards_of_two_and_three_rows() {
    let mut cells = Vec::new();
    for y in 18..20 {
        cells.extend(row_without(y, &[10]));
    }
    let mut game = game_on(&cells, BlockType::I, 10, 16, 3);
    step(&mut game, Some(Intent::HardDrop));
    assert_eq!(game.score(), 300);
    assert_eq!(game.alert_display().messages(), vec![String::from("Double!")]);
    assert_eq!(settled(&game), vec![(10, 18), (10, 19)]);

    let mut cells = Vec::new();
    for y in 17..20 {
        cells.extend(row_without(y, &[10]));
    }
    let mut game = game_on(&cells, BlockType::I, 10, 16, 3);
    step(&mut game, Some(Intent::HardDrop));
    assert_eq!(game.score(), 500);
    assert_eq!(game.alert_display().messages(), vec![String::from("Triple!")]);
    assert_eq!(settled(&game), vec![(10, 19)]);
}

#[test]
fn a_t_spin_scores_alone() {
    let mut cells = row_without(19, &[5]);
    cells.push((4, 17));
    let mut game = game_on(&cells, BlockType::T, 5, 17, 1);
    assert_eq!(step(&mut game, Some(Intent::RotateCw)), Signal::Continue);
    assert_eq!(game.block_manager().block().rotation, 2);
    assert_eq!(position(&game), Vec2::new(5, 17));
    assert_eq!(game.block_manager().placing_cooldown(), 29);
    step(&mut game, Some(Intent::HardDrop));
    assert_eq!(game.score(), 800);
    assert_eq!(game.alert_display().messages(), vec![String::from("T-Spin Single!")]);
    assert_eq!(settled(&game), vec![(4, 18), (4, 19), (5, 19), (6, 19)]);
}

#[test]
fn a_t_spin_without_rows() {
    let mut game = game_on(&[(4, 19), (6, 19), (4, 17)], BlockType::T, 5, 17, 1);
    step(&mut game, Some(Intent::RotateCw));
    step(&mut game, Some(Intent::HardDrop));
    assert_eq!(game.score(), 400);
    assert_eq!(game.alert_display().messages(), vec![String::from("T-Spin!")]);
}

#[test]
fn a_t_dropped_into_place_is_no_spin() {
    let mut cells = row_without(19, &[5]);
    cells.push((4, 17));
    let mut game = game_on(&cells, BlockType::T, 5, 17, 2);
    step(&mut game, Some(Intent::HardDrop));
    assert_eq!(game.score(), 100);
    assert_eq!(game.alert_display().messages(), vec![String::from("Single!")]);
}

#[test]
fn the_game_ends_when_the_stack_reaches_the_top() {
    let mut game = Game::with_bag(30, 3, O_FIRST).unwrap();
    let mut frames = 0;
    let mut last = Signal::Continue;
    while last != Signal::GameOver {
        assert!(frames < 200);
        last = step(&mut game, Some(Intent::HardDrop));
        frames += 1;
    }
    assert!(game.is_over());
    assert!(frames > 5);
    let score = game.score();
    let cells = settled(&game);
    let shape = game.block_manager().block().shape;
    for intent in [None, Some(Intent::MoveLeft), Some(Intent::HardDrop), Some(Intent::Hold)] {
        assert_eq!(step(&mut game, intent), Signal::GameOver);
        assert!(game.is_over());
        assert_eq!(game.score(), score);
        assert_eq!(settled(&game), cells);
        assert_eq!(game.block_manager().block().shape, shape);
    }
}

#[test]
fn a_piece_that_locks_above_the_field_ends_the_game() {
    let mut cells = Vec::new();
    for y in 1..20 {
        cells.push((6, y));
    }
    let mut game = game_on(&cells, BlockType::I, 5, -3, 1);
    assert_eq!(step(&mut game, Some(Intent::HardDrop)), Signal::GameOver);
    assert!(game.is_over());
    assert_eq!(position(&game), Vec2::new(5, -3));
    assert_eq!(settled(&game).len(), 19);
    assert_eq!(game.score(), 0);
}

#[test]
fn a_piece_that_collides_as_it_enters_ends_the_game() {
    let mut cells = Vec::new();
    for y in 0..20 {
        cells.push((5, y));
    }
    let mut game = game_on(&cells, BlockType::I, 6, -3, 1);
    assert_eq!(step(&mut game, Some(Intent::HardDrop)), Signal::GameOver);
    assert!(game.is_over());
    assert_eq!(game.score(), 19);
    assert_eq!(settled(&game).len(), 24);
    assert_eq!(position(&game), Vec2::new(5, 0));
}

#[test]
fn resume_refuses_a_full_row_or_a_colliding_piece() {
    let mut board = CollisionManager::new();
    for x in 1..=10 {
        assert!(board.place(Vec2::new(x, 19), BlockType::Z));
    }
    assert!(Game::resume(board, BlockManager::with_bag(30, 3, O_FIRST).unwrap()).is_none());
    let mut board = CollisionManager::new();
    assert!(board.place(Vec2::new(5, 1), BlockType::Z));
    assert!(Game::resume(board, BlockManager::with_bag(30, 3, O_FIRST).unwrap()).is_none());
    let mut board = CollisionManager::new();
    assert!(board.place(Vec2::new(5, 2), BlockType::Z));
    let game = Game::resume(board, BlockManager::with_bag(30, 3, O_FIRST).unwrap()).unwrap();
    assert_eq!(settled(&game), vec![(5, 2)]);
    assert_eq!(game.score(), 0);
}

#[test]
fn random_play_keeps_the_board_sound() {
    let mut seed: u64 = 0x9E3779B97F4A7C15;
    let mut next = move || {
        seed ^= seed << 13;
        seed ^= seed >> 7;
        seed ^= seed << 17;
        seed
    };
    let intents = [
        Some(Intent::MoveLeft),
        Some(Intent::MoveRight),
        Some(Intent::RotateCw),
        Some(Intent::RotateCcw),
        Some(Intent::SoftDrop),
        Some(Intent::HardDrop),
        Some(Intent::Hold),
        None,
    ];
    for _ in 0..5 {
        let mut game = Game::new(4, 3);
        let mut score = 0;
        for _ in 0..3000 {
            let signal = step(&mut game, intents[(next() % 8) as usize]);
            assert!(game.score() >= score);
            score = game.score();
            let cells = settled(&game);
            for (x, y) in &cells {
                assert!((1..=10).contains(x) && (0..20).contains(y));
            }
            for y in 0..20 {
                assert!(cells.iter().filter(|c| c.1 == y).count() < 10);
            }
            if signal == Signal::GameOver {
                assert!(game.is_over());
                break;
            }
            let block = game.block_manager().block();
            assert!(!game.collision_manager().overlaps(block, block.rotation, Vec2::new(0, 0)));
            assert_eq!(game.block_manager().next_pieces().len(), 3);
        }
    }
}
