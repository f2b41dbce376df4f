//! The game: the board, the piece controller, the score and the messages,
//! advanced by one step per frame.
//!
//! A step takes at most one intent of the player. It acts on the intent,
//! brings the landing preview up to date, and then either counts the lock
//! delay of a resting piece, locking it when the delay runs out, or lets
//! gravity move the piece down.

use crate::alerts::{
    generate_alert_for_filled_lines, generate_alert_for_t_spin, lemma_first_candidate_wins,
    line_reward, reward_score, t_spin_reward, with_reward, AlertDisplay, Reward,
};
use crate::block_manager::{
    above_field, first_bag, initial_view, lemma_free_piece_is_near, lemma_landing_bounds,
    lemma_landing_is_free, lemma_turn_keeps_free, spawned, BlockManager, ManagerView,
};
use crate::block_data::at;
use crate::blocks::{is_bag, lemma_offsets_are_small, spawn_point, BlockType};
use crate::collision_manager::{cell_blocked, shape_blocked, CollisionManager};
use crate::grid::{all_in_field, in_field, Vec2, FIELD_FLOOR};
use crate::queue::{lemma_drawn_twice, lemma_refill_len, queue_drawn, queue_refilled};
use crate::lines::{
    cleared, full_rows, lemma_cleared_has_no_full_row, lemma_cleared_in_field,
    lemma_no_full_row_counts_nought, lemma_piece_fills_at_most_four, no_full_row, row_full,
    with_cells,
};
use vstd::prelude::*;

verus! {

/// The highest score from which a step may start.
pub const SCORE_LIMIT: i64 = 9_000_000_000_000_000_000;

/// The highest row in which the active piece may stand when a step starts.
pub const TOP_LIMIT: i64 = -1_000_000_000_000;

/// The frame counter runs modulo this many frames; gravity moves the piece
/// once in as many frames, and every second frame under a soft drop.
pub const GRAVITY_PERIOD: usize = 12;

/// What the player asks for in one frame.
#[derive(Clone, Copy, Debug, PartialEq, Eq, Structural)]
pub enum Intent {
    MoveLeft,
    MoveRight,
    RotateCw,
    RotateCcw,
    SoftDrop,
    HardDrop,
    Hold,
    Pause,
    VolumeUp,
    VolumeDown,
}

/// What the caller has to do after a step.
#[derive(Clone, Copy, Debug, PartialEq, Eq, Structural)]
pub enum Signal {
    /// Nothing: go on with the next frame.
    Continue,
    /// Pause the game before the next frame.
    Pause,
    /// Turn the music up.
    VolumeUp,
    /// Turn the music down.
    VolumeDown,
    /// The game is over: stop.
    GameOver,
}

/// The state of a game as mathematical values.
#[verifier::ext_equal]
pub struct GameView {
    /// The settled cells.
    pub board: Set<(int, int)>,
    /// The piece controller.
    pub manager: ManagerView,
    /// The messages on show with their remaining lifetimes, oldest first.
    pub alerts: Seq<(Seq<char>, int)>,
    pub score: int,
    /// The frame counter, modulo `GRAVITY_PERIOD`.
    pub tick: int,
    /// Whether the game is over.
    pub over: bool,
}

/// In how many frames gravity moves the piece once: two under a soft drop,
/// else twelve.
pub open spec fn speed_of(intent: Option<Intent>) -> int {
    if intent == Some(Intent::SoftDrop) {
        2
    } else {
        GRAVITY_PERIOD as int
    }
}

/// The reward of a lock: that of the special move if there is one, else
/// that of the rows cleared. The two never add up.
pub open spec fn lock_reward(spin: bool, lines: int) -> Reward {
    if spin {
        t_spin_reward(lines)
    } else {
        line_reward(lines)
    }
}

/// What a step tells the caller.
pub open spec fn signal_for(intent: Option<Intent>, over: bool) -> Signal {
    if over {
        Signal::GameOver
    } else if intent == Some(Intent::Pause) {
        Signal::Pause
    } else if intent == Some(Intent::VolumeUp) {
        Signal::VolumeUp
    } else if intent == Some(Intent::VolumeDown) {
        Signal::VolumeDown
    } else {
        Signal::Continue
    }
}

impl GameView {
    /// Whether the active piece collides where it stands.
    pub open spec fn active_blocked(self) -> bool {
        shape_blocked(
            self.board,
            self.manager.block.shape,
            self.manager.block.rotation as int,
            self.manager.block.pos.x as int,
            self.manager.block.pos.y as int,
        )
    }

    /// Whether the active piece rests: one more step down would collide.
    pub open spec fn resting(self) -> bool {
        shape_blocked(
            self.board,
            self.manager.block.shape,
            self.manager.block.rotation as int,
            self.manager.block.pos.x as int,
            self.manager.block.pos.y + 1,
        )
    }

    /// What holds of every game: the settled cells lie in the field and fill
    /// no row, the controller is valid, and while the game is on the active
    /// piece is free.
    pub open spec fn valid(self) -> bool {
        &&& all_in_field(self.board)
        &&& no_full_row(self.board)
        &&& self.manager.valid()
        &&& 0 <= self.tick < GRAVITY_PERIOD
        &&& !self.over ==> !self.active_blocked()
    }

    /// Whether a step from this state stays inside what `i64` can hold.
    pub open spec fn within_limits(self) -> bool {
        &&& i64::MIN <= self.score <= SCORE_LIMIT
        &&& self.manager.block.pos.y >= TOP_LIMIT
    }

    /// This state with another queue.
    pub open spec fn requeued(self, queue: Seq<BlockType>) -> GameView {
        GameView { manager: ManagerView { queue, ..self.manager }, ..self }
    }

    /// The state after the intent is acted on.
    pub open spec fn after_intent(self, intent: Option<Intent>) -> GameView {
        match intent {
            Some(Intent::MoveLeft) => GameView {
                manager: self.manager.moved_by(self.board, at(-1, 0)),
                ..self
            },
            Some(Intent::MoveRight) => GameView {
                manager: self.manager.moved_by(self.board, Vec2 { x: 1, y: 0 }),
                ..self
            },
            Some(Intent::RotateCw) => GameView { manager: self.manager.turned(self.board, true), ..self },
            Some(Intent::RotateCcw) => GameView { manager: self.manager.turned(self.board, false), ..self },
            Some(Intent::HardDrop) => GameView {
                manager: self.manager.hard_dropped(self.board),
                score: self.score + self.manager.landing(self.board) - self.manager.block.pos.y,
                tick: GRAVITY_PERIOD - 1,
                ..self
            },
            Some(Intent::Hold) => {
                let held = GameView { manager: self.manager.held(self.manager.queue.skip(1)), ..self };
                GameView { over: held.active_blocked(), ..held }
            },
            _ => self,
        }
    }

    /// The state after the active piece locks: if it reaches above the
    /// field the game is over. Else its cells settle, the full rows are
    /// cleared, the reward is taken and the next piece enters; if that piece
    /// collides at once, the game is over.
    pub open spec fn locked(self) -> GameView {
        let block = self.manager.block;
        if above_field(block) {
            GameView { manager: self.manager.rearmed(), over: true, ..self }
        } else {
            let stacked = with_cells(self.board, block.cells(block.rotation as int));
            let reward = lock_reward(self.manager.is_t_spin(self.board), full_rows(stacked, 0));
            let next = GameView {
                board: cleared(stacked),
                manager: self.manager.rearmed().with_next(self.manager.queue.skip(1)),
                alerts: with_reward(self.alerts, reward),
                score: self.score + reward_score(reward),
                ..self
            };
            GameView { over: next.active_blocked(), ..next }
        }
    }

    /// The state after the second half of a step: the landing preview is
    /// brought up to date; then a resting piece has one frame of its lock
    /// delay counted and locks when none is left, and a piece that does not
    /// rest moves down by one row if gravity is due, which under a soft drop
    /// scores one point.
    pub open spec fn settled_down(self, speed: int) -> GameView {
        let shown = GameView { manager: self.manager.with_ghost(self.board), ..self };
        if shown.resting() {
            let counted = GameView { manager: shown.manager.counted_down(), ..shown };
            if counted.manager.placing_cooldown == 0 {
                counted.locked()
            } else {
                counted
            }
        } else if shown.tick % speed == 0 {
            GameView {
                manager: shown.manager.moved_by(shown.board, Vec2 { x: 0, y: 1 }),
                score: shown.score + if speed == 2 {
                    1int
                } else {
                    0int
                },
                ..shown
            }
        } else {
            shown
        }
    }

    /// The state after one step, but for the shapes that a refill adds at
    /// the end of the queue, which are drawn at random. A game that is over
    /// stays as it is.
    pub open spec fn step(self, intent: Option<Intent>) -> GameView {
        if self.over {
            self
        } else {
            let acted = (GameView { tick: (self.tick + 1) % (GRAVITY_PERIOD as int), ..self }).after_intent(
                intent,
            );
            if acted.over {
                acted
            } else {
                acted.settled_down(speed_of(intent))
            }
        }
    }
}

/// Whether `reached` is `planned` with its queue refilled.
pub open spec fn follows(planned: GameView, reached: GameView) -> bool {
    &&& reached == planned.requeued(reached.manager.queue)
    &&& queue_refilled(
        planned.manager.queue,
        reached.manager.queue,
        planned.manager.piece_preview_count as int,
    )
}

/// The state in which a game begins, `manager` being its controller.
pub open spec fn opening(manager: ManagerView) -> GameView {
    GameView {
        board: Set::empty(),
        manager,
        alerts: Seq::empty(),
        score: 0,
        tick: 0,
        over: false,
    }
}

/// A piece at the spawn point is free on an empty board.
pub proof fn lemma_spawn_is_free(shape: BlockType)
    ensures
        !shape_blocked(Set::empty(), shape, 0, spawn_point().x as int, spawn_point().y as int),
{
    lemma_offsets_are_small(shape, 0);
}

/// A game.
pub struct Game {
    alert_display: AlertDisplay,
    block_manager: BlockManager,
    collision_manager: CollisionManager,
    score: i64,
    t: usize,
    game_over: bool,
}

impl View for Game {
    type V = GameView;

    closed spec fn view(&self) -> GameView {
        GameView {
            board: self.collision_manager.settled(),
            manager: self.block_manager@,
            alerts: self.alert_display.entries(),
            score: self.score as int,
            tick: self.t as int,
            over: self.game_over,
        }
    }
}

/// A step's second half reaches the planned state from a state that follows
/// the plan so far.
proof fn lemma_settle_follows(planned: GameView, reached: GameView, last: GameView, speed: int)
    requires
        follows(planned, reached),
        planned.manager.queue.len() >= 1,
        follows(reached.settled_down(speed), last),
    ensures
        follows(planned.settled_down(speed), last),
{
    let preview = planned.manager.piece_preview_count as int;
    let plan = planned.settled_down(speed);
    let went = reached.settled_down(speed);
    assert(reached.manager.queue[0] == planned.manager.queue[0]);
    assert(went == plan.requeued(went.manager.queue));
    if plan.manager.queue == planned.manager.queue {
        assert(went.manager.queue == reached.manager.queue);
        lemma_refill_len(reached.manager.queue.len() as int, preview);
        lemma_refill_len(planned.manager.queue.len() as int, preview);
        assert(last.manager.queue.len() == reached.manager.queue.len());
        assert(last.manager.queue =~= reached.manager.queue);
    } else {
        assert(plan.manager.queue == planned.manager.queue.skip(1));
        assert(went.manager.queue == reached.manager.queue.skip(1));
        lemma_drawn_twice(planned.manager.queue, reached.manager.queue, last.manager.queue, preview);
    }
    assert(last =~= plan.requeued(last.manager.queue));
}

impl Game {
    /// A new game: an empty board, no score, and a controller whose queue
    /// starts with a fresh bag. Which bag it is, is left to chance.
    pub fn new(block_place_cooldown: u32, piece_preview_count: usize) -> (game: Self)
        ensures
            game@ == opening(game@.manager),
            game@.manager == initial_view(
                block_place_cooldown,
                piece_preview_count,
                game@.manager.block.shape,
                game@.manager.queue,
            ),
            is_bag(first_bag(game@.manager)),
            queue_drawn(first_bag(game@.manager), game@.manager.queue, piece_preview_count as int),
            game@.valid(),
    {
        Self::start(BlockManager::new(block_place_cooldown, piece_preview_count))
    }

    /// A new game whose first seven shapes are those of `bag`, in that
    /// order; none if `bag` does not hold every shape once.
    pub fn with_bag(block_place_cooldown: u32, piece_preview_count: usize, bag: [BlockType; 7]) -> (made:
        Option<Self>)
        ensures
            made is Some <==> is_bag(bag@),
            made matches Some(game) ==> {
                &&& game@ == opening(game@.manager)
                &&& game@.manager == initial_view(
                    block_place_cooldown,
                    piece_preview_count,
                    bag@[0],
                    game@.manager.queue,
                )
                &&& queue_drawn(bag@, game@.manager.queue, piece_preview_count as int)
                &&& game@.valid()
            },
    {
        match BlockManager::with_bag(block_place_cooldown, piece_preview_count, bag) {
            Some(manager) => Some(Self::start(manager)),
            None => None,
        }
    }

    /// A game that goes on from a given board and controller, with no score
    /// and no message; none if a row of the board is full or the active piece
    /// collides on it.
    pub fn resume(board: CollisionManager, manager: BlockManager) -> (made: Option<Self>)
        ensures
            made is Some <==> no_full_row(board.settled()) && manager@.block_free(board.settled()),
            made matches Some(game) ==> {
                &&& game@ == (GameView { board: board.settled(), ..opening(manager@) })
                &&& game@.valid()
            },
    {
        proof {
            use_type_invariant(&manager);
            use_type_invariant(&board);
            board.lemma_settled_in_field();
            lemma_no_full_row_counts_nought(board.settled(), 0);
        }
        if board.count_full_rows() != 0 {
            return None;
        }
        if board.overlaps(manager.block(), manager.block().rotation, Vec2::new(0, 0)) {
            return None;
        }
        Some(
            Game {
                alert_display: AlertDisplay::new(Vec2::new(12, 7)),
                block_manager: manager,
                collision_manager: board,
                score: 0,
                t: 0,
                game_over: false,
            },
        )
    }

    fn start(manager: BlockManager) -> (game: Self)
        requires
            manager@.block == spawned(manager@.block.shape),
        ensures
            game@ == opening(manager@),
            game@.valid(),
    {
        proof {
            use_type_invariant(&manager);
        }
        let game = Game {
            alert_display: AlertDisplay::new(Vec2::new(12, 7)),
            block_manager: manager,
            collision_manager: CollisionManager::new(),
            score: 0,
            t: 0,
            game_over: false,
        };
        proof {
            assert(game@.board =~= Set::<(int, int)>::empty());
            lemma_spawn_is_free(game@.manager.block.shape);
            assert forall|y: int| 0 <= y < FIELD_FLOOR implies !#[trigger] row_full(game@.board, y) by {
                assert(!game@.board.contains((1, y)));
            }
        }
        game
    }

    /// The score.
    pub fn score(&self) -> (score: i64)
        ensures
            score == self@.score,
    {
        self.score
    }

    /// Whether the game is over.
    pub fn is_over(&self) -> (over: bool)
        ensures
            over == self@.over,
    {
        self.game_over
    }

    /// The board, for drawing.
    pub fn collision_manager(&self) -> (board: &CollisionManager)
        ensures
            board.settled() == self@.board,
    {
        &self.collision_manager
    }

    /// The piece controller, for drawing.
    pub fn block_manager(&self) -> (manager: &BlockManager)
        ensures
            manager@ == self@.manager,
    {
        &self.block_manager
    }

    /// The messages, for drawing.
    pub fn alert_display(&self) -> (display: &AlertDisplay)
        ensures
            display.entries() == self@.alerts,
    {
        &self.alert_display
    }

    /// Ages the messages by one frame; to be called once for every frame
    /// that is drawn.
    pub fn age_alerts(&mut self)
        ensures
            final(self)@ == (GameView { alerts: crate::alerts::aged(old(self)@.alerts), ..old(self)@ }),
    {
        self.alert_display.frame();
    }

    /// Whether the state is valid. Every game that this library hands out
    /// is; a caller that the verifier does not see can make sure of it here.
    pub fn is_valid(&self) -> (ok: bool)
        ensures
            ok == self@.valid(),
    {
        proof {
            use_type_invariant(&self.block_manager);
            use_type_invariant(&self.collision_manager);
            self.collision_manager.lemma_settled_in_field();
            lemma_no_full_row_counts_nought(self@.board, 0);
        }
        self.t < GRAVITY_PERIOD && self.collision_manager.count_full_rows() == 0 && (self.game_over
            || !self.active_is_blocked())
    }

    /// Whether a step may be taken from this state without leaving what
    /// `i64` can hold.
    pub fn can_advance(&self) -> (ok: bool)
        ensures
            ok == self@.within_limits(),
    {
        self.score <= SCORE_LIMIT && self.block_manager.block().pos.y >= TOP_LIMIT
    }

    /// Whether the active piece collides where it stands.
    fn active_is_blocked(&self) -> (hit: bool)
        ensures
            hit == self@.active_blocked(),
    {
        let block = self.block_manager.block();
        self.collision_manager.overlaps(block, block.rotation, Vec2::new(0, 0))
    }

    /// Acts on the intent.
    fn act(&mut self, intent: Option<Intent>)
        requires
            old(self)@.valid(),
            !old(self)@.over,
            old(self)@.within_limits(),
        ensures
            follows(old(self)@.after_intent(intent), final(self)@),
            final(self)@.valid(),
            final(self)@.manager.block.pos.y >= TOP_LIMIT - 2,
            i64::MIN <= final(self)@.score <= SCORE_LIMIT + FIELD_FLOOR - TOP_LIMIT,
    {
        let ghost before = self@;
        proof {
            use_type_invariant(&self.block_manager);
            lemma_refill_len(before.manager.queue.len() as int, before.manager.piece_preview_count as int);
        }
        match intent {
            Some(Intent::MoveLeft) => {
                let moved = self.block_manager.try_move_block(&self.collision_manager, Vec2::new(-1, 0));
                proof {
                    if moved {
                        lemma_free_piece_is_near(
                            before.board,
                            before.manager.block.shape,
                            before.manager.block.rotation as int,
                            before.manager.block.pos.x - 1,
                            before.manager.block.pos.y as int,
                        );
                    }
                }
            },
            Some(Intent::MoveRight) => {
                let moved = self.block_manager.try_move_block(&self.collision_manager, Vec2::new(1, 0));
                proof {
                    if moved {
                        lemma_free_piece_is_near(
                            before.board,
                            before.manager.block.shape,
                            before.manager.block.rotation as int,
                            before.manager.block.pos.x + 1,
                            before.manager.block.pos.y as int,
                        );
                    }
                }
            },
            Some(Intent::RotateCw) => {
                self.block_manager.try_rotate_block(&self.collision_manager, true);
                proof {
                    lemma_turn_keeps_free(before.manager, before.board, true);
                }
            },
            Some(Intent::RotateCcw) => {
                self.block_manager.try_rotate_block(&self.collision_manager, false);
                proof {
                    lemma_turn_keeps_free(before.manager, before.board, false);
                }
            },
            Some(Intent::HardDrop) => {
                proof {
                    lemma_landing_bounds(
                        before.board,
                        before.manager.block.shape,
                        before.manager.block.rotation as int,
                        before.manager.block.pos.x as int,
                        before.manager.block.pos.y as int,
                    );
                    lemma_landing_is_free(
                        before.board,
                        before.manager.block.shape,
                        before.manager.block.rotation as int,
                        before.manager.block.pos.x as int,
                        before.manager.block.pos.y as int,
                    );
                }
                let distance = self.block_manager.hard_drop(&self.collision_manager);
                self.score = self.score + distance;
                self.t = GRAVITY_PERIOD - 1;
            },
            Some(Intent::Hold) => {
                self.block_manager.hold();
                if self.active_is_blocked() {
                    self.game_over = true;
                }
            },
            _ => {},
        }
        proof {
            let planned = before.after_intent(intent);
            assert(self@ =~= planned.requeued(self@.manager.queue));
        }
    }

    /// Locks the active piece.
    fn lock(&mut self)
        requires
            old(self)@.valid(),
            !old(self)@.over,
            i64::MIN <= old(self)@.score <= SCORE_LIMIT + FIELD_FLOOR - TOP_LIMIT,
        ensures
            follows(old(self)@.locked(), final(self)@),
            final(self)@.valid(),
    {
        let ghost before = self@;
        let ghost block = before.manager.block;
        let ghost cells = block.cells(block.rotation as int);
        proof {
            use_type_invariant(&self.block_manager);
            lemma_refill_len(before.manager.queue.len() as int, before.manager.piece_preview_count as int);
        }
        let spin = self.block_manager.check_for_t_spin(&self.collision_manager);
        if self.block_manager.reset() {
            self.game_over = true;
            proof {
                assert(self@ =~= before.locked().requeued(self@.manager.queue));
            }
            return ;
        }
        proof {
            assert forall|k: int| 0 <= k < cells.len() implies in_field(
                (#[trigger] cells[k]).0,
                cells[k].1,
            ) by {
                assert(!cell_blocked(before.board, cells[k].0, cells[k].1));
            }
            lemma_piece_fills_at_most_four(before.board, cells);
        }
        let cleared_lines = self.collision_manager.draw_and_clear_lines(self.block_manager.block());
        let special = if spin {
            generate_alert_for_t_spin(cleared_lines)
        } else {
            None
        };
        let generic = generate_alert_for_filled_lines(cleared_lines);
        proof {
            lemma_first_candidate_wins(special, generic);
        }
        let candidates = vec![special, generic];
        assert(candidates@ =~= seq![special, generic]);
        self.alert_display.priorised_alerts_with_score(candidates.as_slice(), &mut self.score);
        self.block_manager.generate_new_block();
        if self.active_is_blocked() {
            self.game_over = true;
        }
        proof {
            let stacked = with_cells(before.board, cells);
            assert(all_in_field(stacked)) by {
                assert forall|x: int, y: int| #[trigger] stacked.contains((x, y)) implies in_field(x, y) by {
                    if cells.contains((x, y)) {
                        let k = choose|k: int| 0 <= k < cells.len() && cells[k] == (x, y);
                        assert(in_field(cells[k].0, cells[k].1));
                    }
                }
            }
            lemma_cleared_in_field(stacked);
            lemma_cleared_has_no_full_row(stacked);
            assert(self@ =~= before.locked().requeued(self@.manager.queue));
        }
    }

    /// The second half of a step.
    fn settle(&mut self, speed: usize)
        requires
            old(self)@.valid(),
            !old(self)@.over,
            speed == 2 || speed == GRAVITY_PERIOD,
            old(self)@.manager.block.pos.y >= TOP_LIMIT - 2,
            i64::MIN <= old(self)@.score <= SCORE_LIMIT + FIELD_FLOOR - TOP_LIMIT,
        ensures
            follows(old(self)@.settled_down(speed as int), final(self)@),
            final(self)@.valid(),
    {
        let ghost before = self@;
        proof {
            use_type_invariant(&self.block_manager);
            lemma_refill_len(before.manager.queue.len() as int, before.manager.piece_preview_count as int);
        }
        self.block_manager.generate_ghost_block(&self.collision_manager);
        let block = self.block_manager.block();
        if self.collision_manager.overlaps(block, block.rotation, Vec2::new(0, 1)) {
            if self.block_manager.count_down() {
                let ghost counted = self@;
                self.lock();
                proof {
                    assert(counted.locked() == before.settled_down(speed as int));
                }
            } else {
                proof {
                    assert(self@ =~= before.settled_down(speed as int).requeued(self@.manager.queue));
                }
            }
        } else if self.t % speed == 0 {
            proof {
                lemma_free_piece_is_near(
                    before.board,
                    before.manager.block.shape,
                    before.manager.block.rotation as int,
                    before.manager.block.pos.x as int,
                    before.manager.block.pos.y + 1,
                );
            }
            self.block_manager.try_move_block(&self.collision_manager, Vec2::new(0, 1));
            if speed == 2 {
                self.score = self.score + 1;
            }
            proof {
                assert(self@ =~= before.settled_down(speed as int).requeued(self@.manager.queue));
            }
        } else {
            proof {
                assert(self@ =~= before.settled_down(speed as int).requeued(self@.manager.queue));
            }
        }
    }

    /// Advances the game by one frame, acting on at most one intent, and
    /// tells the caller what is left for it to do. From the state before and
    /// the intent everything in the state after is determined but the
    /// shapes that a refill adds at the end of the queue.
    pub fn frame(&mut self, intent: Option<Intent>) -> (signal: Signal)
        requires
            old(self)@.valid(),
            old(self)@.within_limits(),
        ensures
            follows(old(self)@.step(intent), final(self)@),
            final(self)@.valid(),
            signal == signal_for(intent, final(self)@.over),
    {
        let ghost before = self@;
        proof {
            use_type_invariant(&self.block_manager);
            lemma_refill_len(before.manager.queue.len() as int, before.manager.piece_preview_count as int);
        }
        if self.game_over {
            proof {
                assert(self@ =~= before.step(intent).requeued(self@.manager.queue));
            }
            return Signal::GameOver;
        }
        self.t = (self.t + 1) % GRAVITY_PERIOD;
        let ghost ticked = self@;
        self.act(intent);
        let ghost acted = self@;
        if !self.game_over {
            let speed: usize = match intent {
                Some(Intent::SoftDrop) => 2,
                _ => GRAVITY_PERIOD,
            };
            self.settle(speed);
            proof {
                lemma_settle_follows(ticked.after_intent(intent), acted, self@, speed as int);
            }
        }
        if self.game_over {
            Signal::GameOver
        } else {
            match intent {
                Some(Intent::Pause) => Signal::Pause,
                Some(Intent::VolumeUp) => Signal::VolumeUp,
                Some(Intent::VolumeDown) => Signal::VolumeDown,
                _ => Signal::Continue,
            }
        }
    }
}

} // verus!
