//! The piece controller: the active piece, its landing preview, the hold
//! slot, the queue of upcoming shapes and the lock delay.

use crate::block_data::{kick_candidates, state_count, state_offsets, wall_kicks};
use crate::blocks::{
    is_bag, lemma_offsets_are_small, shape_cells, spawn_point, Block, BlockType,
};
use crate::collision_manager::{cell_blocked, shape_blocked, CollisionManager};
use crate::grid::{Vec2, FIELD_FLOOR, FIELD_LEFT, FIELD_RIGHT};
use crate::queue::{
    bags_aligned, check_bag, draw_from, lemma_bag_keeps_bags, lemma_refill_len, min_queue,
    queue_drawn,
};
use vstd::prelude::*;

verus! {

/// A piece of `shape` as it enters the field.
pub open spec fn spawned(shape: BlockType) -> Block {
    Block { pos: spawn_point(), shape, rotation: 0, is_ghost: false }
}

/// Whether `block`, put in the state `target` and moved by `kick`, is free.
pub open spec fn kick_fits(settled: Set<(int, int)>, block: Block, target: int, kick: Vec2) -> bool {
    !shape_blocked(settled, block.shape, target, block.pos.x + kick.x, block.pos.y + kick.y)
}

/// The index of the first of `candidates`, from index `from` on, with which
/// the turn is free; the length of `candidates` if there is none.
pub open spec fn first_fit(
    settled: Set<(int, int)>,
    block: Block,
    target: int,
    candidates: Seq<Vec2>,
    from: int,
) -> int
    decreases candidates.len() - from,
{
    if from >= candidates.len() {
        candidates.len() as int
    } else if kick_fits(settled, block, target, candidates[from]) {
        from
    } else {
        first_fit(settled, block, target, candidates, from + 1)
    }
}

/// The shifts tried when `block` turns: none first, then the wall
/// kicks of its shape for this turn, in table order.
pub open spec fn turn_candidates(block: Block, clockwise: bool) -> Seq<Vec2> {
    kick_candidates(
        block.shape,
        block.rotation as int % state_count(block.shape),
        block.next_rotation(clockwise),
    )
}

/// The row at which a piece that falls from row `y` comes to rest: the first
/// row, from `y` down, from which one more step down would collide.
pub open spec fn landing_row(
    settled: Set<(int, int)>,
    shape: BlockType,
    rotation: int,
    x: int,
    y: int,
) -> int
    decreases FIELD_FLOOR - y,
{
    if y >= FIELD_FLOOR - 1 || shape_blocked(settled, shape, rotation, x, y + 1) {
        y
    } else {
        landing_row(settled, shape, rotation, x, y + 1)
    }
}

/// Whether some cell of `block` lies above the top row of the field.
pub open spec fn above_field(block: Block) -> bool {
    exists|k: int| 0 <= k < 4 && (#[trigger] block.cells(block.rotation as int)[k]).1 < 0
}

/// The state of the controller as mathematical values.
#[verifier::ext_equal]
pub struct ManagerView {
    /// The active piece.
    pub block: Block,
    /// Where the active piece would land; for drawing only.
    pub ghost_block: Block,
    /// The upcoming shapes, next first.
    pub queue: Seq<BlockType>,
    /// The shape in the hold slot.
    pub held_piece: Option<BlockType>,
    /// Whether the hold was used since the last lock.
    pub has_held: bool,
    /// Whether the last thing that changed the active piece was a turn.
    pub last_move_was_turn: bool,
    /// Frames of rest left before the active piece locks.
    pub placing_cooldown: u32,
    /// The lock delay every piece starts with.
    pub block_place_cooldown: u32,
    /// How many upcoming shapes are shown.
    pub piece_preview_count: usize,
}

impl ManagerView {
    /// What holds of every controller: the queue never runs short, and it
    /// is the rest of a run of bags.
    pub open spec fn valid(self) -> bool {
        &&& self.queue.len() >= min_queue(self.piece_preview_count as int)
        &&& bags_aligned(self.queue)
    }

    /// Whether the active piece, moved by `delta`, is free.
    pub open spec fn can_move(self, settled: Set<(int, int)>, delta: Vec2) -> bool {
        !shape_blocked(
            settled,
            self.block.shape,
            self.block.rotation as int,
            self.block.pos.x + delta.x,
            self.block.pos.y + delta.y,
        )
    }

    /// The state after an attempt to move the active piece by `delta`: moved
    /// if it is free there, unchanged if not.
    pub open spec fn moved_by(self, settled: Set<(int, int)>, delta: Vec2) -> ManagerView {
        if self.can_move(settled, delta) {
            ManagerView {
                block: Block {
                    pos: Vec2 {
                        x: (self.block.pos.x + delta.x) as i64,
                        y: (self.block.pos.y + delta.y) as i64,
                    },
                    ..self.block
                },
                last_move_was_turn: false,
                ..self
            }
        } else {
            self
        }
    }

    /// The index of the shift with which a turn succeeds; the number
    /// of candidates if it fails.
    pub open spec fn turn_choice(self, settled: Set<(int, int)>, clockwise: bool) -> int {
        first_fit(
            settled,
            self.block,
            self.block.next_rotation(clockwise),
            turn_candidates(self.block, clockwise),
            0,
        )
    }

    /// Whether a turn succeeds.
    pub open spec fn can_turn(self, settled: Set<(int, int)>, clockwise: bool) -> bool {
        self.turn_choice(settled, clockwise) < turn_candidates(self.block, clockwise).len()
    }

    /// The state after an attempt to turn the active piece: turned and moved
    /// by the first shift that leaves it free, unchanged if none does.
    pub open spec fn turned(self, settled: Set<(int, int)>, clockwise: bool) -> ManagerView {
        if self.can_turn(settled, clockwise) {
            let kick = turn_candidates(self.block, clockwise)[self.turn_choice(settled, clockwise)];
            ManagerView {
                block: Block {
                    pos: Vec2 {
                        x: (self.block.pos.x + kick.x) as i64,
                        y: (self.block.pos.y + kick.y) as i64,
                    },
                    rotation: self.block.next_rotation(clockwise) as usize,
                    ..self.block
                },
                last_move_was_turn: true,
                ..self
            }
        } else {
            self
        }
    }

    /// The row at which the active piece would land.
    pub open spec fn landing(self, settled: Set<(int, int)>) -> int {
        landing_row(
            settled,
            self.block.shape,
            self.block.rotation as int,
            self.block.pos.x as int,
            self.block.pos.y as int,
        )
    }

    /// The state with the landing preview brought up to date.
    pub open spec fn with_ghost(self, settled: Set<(int, int)>) -> ManagerView {
        ManagerView {
            ghost_block: Block {
                pos: Vec2 { x: self.block.pos.x, y: self.landing(settled) as i64 },
                is_ghost: true,
                ..self.block
            },
            ..self
        }
    }

    /// The state after a hard drop: the active piece stands where it lands
    /// and locks at the next count.
    pub open spec fn hard_dropped(self, settled: Set<(int, int)>) -> ManagerView {
        ManagerView {
            block: Block {
                pos: Vec2 { x: self.block.pos.x, y: self.landing(settled) as i64 },
                is_ghost: false,
                ..self.block
            },
            last_move_was_turn: self.last_move_was_turn && self.landing(settled) == self.block.pos.y,
            placing_cooldown: 1,
            ..self.with_ghost(settled)
        }
    }

    /// The state after the next shape is drawn, `queue` being what the draw
    /// left of the queue.
    pub open spec fn with_next(self, queue: Seq<BlockType>) -> ManagerView {
        ManagerView { block: spawned(self.queue[0]), queue, last_move_was_turn: false, ..self }
    }

    /// The state after a hold, `queue` being the queue afterwards. A second
    /// hold before a lock changes nothing. Else the shape of the active piece
    /// goes to the hold slot, and the shape that was there, or the next of
    /// the queue if there was none, enters the field.
    pub open spec fn held(self, queue: Seq<BlockType>) -> ManagerView {
        if self.has_held {
            self
        } else {
            match self.held_piece {
                Some(shape) => ManagerView {
                    block: spawned(shape),
                    held_piece: Some(self.block.shape),
                    has_held: true,
                    last_move_was_turn: false,
                    ..self
                },
                None => ManagerView {
                    held_piece: Some(self.block.shape),
                    has_held: true,
                    ..self.with_next(queue)
                },
            }
        }
    }

    /// The state made ready for the next piece: full lock delay, hold free.
    pub open spec fn rearmed(self) -> ManagerView {
        ManagerView { placing_cooldown: self.block_place_cooldown, has_held: false, ..self }
    }

    /// The state after one frame of rest is counted.
    pub open spec fn counted_down(self) -> ManagerView {
        ManagerView {
            placing_cooldown: if self.placing_cooldown > 0 {
                (self.placing_cooldown - 1) as u32
            } else {
                0
            },
            ..self
        }
    }

    /// Whether the active piece is free where it stands.
    pub open spec fn block_free(self, settled: Set<(int, int)>) -> bool {
        !shape_blocked(
            settled,
            self.block.shape,
            self.block.rotation as int,
            self.block.pos.x as int,
            self.block.pos.y as int,
        )
    }

    /// Whether the active piece is a `T` that was turned into a slot: its
    /// last change was a turn, and at least three of the four cells diagonal
    /// to its centre are walls, floor or settled cells.
    pub open spec fn is_t_spin(self, settled: Set<(int, int)>) -> bool {
        &&& self.block.shape == BlockType::T
        &&& self.last_move_was_turn
        &&& blocked_corners(settled, self.block.pos.x as int, self.block.pos.y + 1) >= 3
    }
}

/// `1` if the cell `(x, y)` would collide, else `0`.
pub open spec fn blocked_count(settled: Set<(int, int)>, x: int, y: int) -> int {
    if cell_blocked(settled, x, y) {
        1
    } else {
        0
    }
}

/// How many of the four cells diagonal to `(x, y)` would collide.
pub open spec fn blocked_corners(settled: Set<(int, int)>, x: int, y: int) -> int {
    blocked_count(settled, x - 1, y - 1) + blocked_count(settled, x + 1, y - 1) + blocked_count(
        settled,
        x - 1,
        y + 1,
    ) + blocked_count(settled, x + 1, y + 1)
}

/// The controller's state when a game begins with the piece `first` and
/// the queue `queue`.
pub open spec fn initial_view(
    block_place_cooldown: u32,
    piece_preview_count: usize,
    first: BlockType,
    queue: Seq<BlockType>,
) -> ManagerView {
    ManagerView {
        block: spawned(first),
        ghost_block: Block { is_ghost: true, ..spawned(first) },
        queue,
        held_piece: None,
        has_held: false,
        last_move_was_turn: false,
        placing_cooldown: block_place_cooldown,
        block_place_cooldown,
        piece_preview_count,
    }
}

/// The active piece's shape and the six shapes that follow it: the first
/// bag of a game that has just begun.
pub open spec fn first_bag(state: ManagerView) -> Seq<BlockType> {
    seq![state.block.shape] + state.queue.take(6)
}

/// The piece controller.
pub struct BlockManager {
    block: Block,
    ghost_block: Block,
    queue: Vec<BlockType>,
    held_piece: Option<BlockType>,
    has_held: bool,
    last_move_was_turn: bool,
    placing_cooldown: u32,
    block_place_cooldown: u32,
    piece_preview_count: usize,
}

impl View for BlockManager {
    type V = ManagerView;

    closed spec fn view(&self) -> ManagerView {
        ManagerView {
            block: self.block,
            ghost_block: self.ghost_block,
            queue: self.queue@,
            held_piece: self.held_piece,
            has_held: self.has_held,
            last_move_was_turn: self.last_move_was_turn,
            placing_cooldown: self.placing_cooldown,
            block_place_cooldown: self.block_place_cooldown,
            piece_preview_count: self.piece_preview_count,
        }
    }
}

impl BlockManager {
    /// Every controller is valid.
    #[verifier::type_invariant]
    pub open spec fn well_formed(self) -> bool {
        self@.valid()
    }

    /// A controller whose first seven shapes are those of `bag`, in that
    /// order; none if `bag` does not hold every shape once. `bag`'s first
    /// shape becomes the active piece.
    pub fn with_bag(block_place_cooldown: u32, piece_preview_count: usize, bag: [BlockType; 7]) -> (made:
        Option<Self>)
        ensures
            made is Some <==> is_bag(bag@),
            made matches Some(manager) ==> {
                &&& manager@ == initial_view(
                    block_place_cooldown,
                    piece_preview_count,
                    bag@[0],
                    manager@.queue,
                )
                &&& queue_drawn(bag@, manager@.queue, piece_preview_count as int)
                &&& manager@.valid()
            },
    {
        if !check_bag(&bag) {
            return None;
        }
        let mut first: Vec<BlockType> = Vec::new();
        let mut k: usize = 0;
        while k < 7
            invariant
                k <= 7,
                bag@.len() == 7,
                first@ == bag@.take(k as int),
            decreases 7 - k,
        {
            first.push(bag[k]);
            assert(first@ =~= bag@.take(k + 1));
            k += 1;
        }
        proof {
            assert(first@ =~= bag@);
            lemma_bag_keeps_bags(Seq::empty(), bag@);
            assert(Seq::<BlockType>::empty() + bag@ =~= bag@);
        }
        let (shape, queue) = draw_from(&first, piece_preview_count);
        let mut ghost_block = Block::new(shape);
        ghost_block.is_ghost = true;
        Some(
            BlockManager {
                block: Block::new(shape),
                ghost_block,
                queue,
                held_piece: None,
                has_held: false,
                last_move_was_turn: false,
                placing_cooldown: block_place_cooldown,
                block_place_cooldown,
                piece_preview_count,
            },
        )
    }

    /// A controller for a new game: the queue starts with a fresh bag, whose
    /// first shape becomes the active piece. Which bag it is, is left to
    /// chance.
    pub fn new(block_place_cooldown: u32, piece_preview_count: usize) -> (manager: Self)
        ensures
            manager@ == initial_view(
                block_place_cooldown,
                piece_preview_count,
                manager@.block.shape,
                manager@.queue,
            ),
            is_bag(first_bag(manager@)),
            queue_drawn(first_bag(manager@), manager@.queue, piece_preview_count as int),
            manager@.valid(),
    {
        let bag = BlockType::bag();
        let made = Self::with_bag(block_place_cooldown, piece_preview_count, bag);
        let manager = made.unwrap();
        proof {
            lemma_refill_len(6, piece_preview_count as int);
            assert(first_bag(manager@) =~= bag@);
        }
        manager
    }

    /// The active piece.
    pub fn block(&self) -> (block: &Block)
        ensures
            *block == self@.block,
    {
        &self.block
    }

    /// The landing preview, as `generate_ghost_block` last left it.
    pub fn ghost_block(&self) -> (block: &Block)
        ensures
            *block == self@.ghost_block,
    {
        &self.ghost_block
    }

    /// The shape in the hold slot.
    pub fn held_piece(&self) -> (held: Option<BlockType>)
        ensures
            held == self@.held_piece,
    {
        self.held_piece
    }

    /// The shapes to show as upcoming: the first `piece_preview_count` of
    /// the queue, next first.
    pub fn next_pieces(&self) -> (shapes: Vec<BlockType>)
        ensures
            shapes@ == self@.queue.take(self@.piece_preview_count as int),
            self@.valid(),
    {
        proof {
            use_type_invariant(self);
        }
        let mut shapes: Vec<BlockType> = Vec::new();
        let mut i: usize = 0;
        while i < self.piece_preview_count
            invariant
                i <= self.piece_preview_count <= self.queue@.len(),
                shapes@ == self.queue@.take(i as int),
            decreases self.piece_preview_count - i,
        {
            shapes.push(self.queue[i]);
            assert(shapes@ =~= self.queue@.take(i + 1));
            i += 1;
        }
        shapes
    }

    /// Frames of rest left before the active piece locks.
    pub fn placing_cooldown(&self) -> (frames: u32)
        ensures
            frames == self@.placing_cooldown,
    {
        self.placing_cooldown
    }

    /// Replaces the active piece.
    pub fn set_block(&mut self, block: Block)
        ensures
            final(self)@ == (ManagerView { block, last_move_was_turn: false, ..old(self)@ }),
    {
        proof {
            use_type_invariant(&*self);
        }
        self.block = block;
        self.last_move_was_turn = false;
    }

    /// Moves the active piece by `delta` if it is free there; else leaves it.
    /// Returns whether it moved.
    pub fn try_move_block(&mut self, board: &CollisionManager, delta: Vec2) -> (moved: bool)
        requires
            old(self)@.block.pos.y + delta.y >= i64::MIN,
        ensures
            moved == old(self)@.can_move(board.settled(), delta),
            final(self)@ == old(self)@.moved_by(board.settled(), delta),
            moved ==> final(self)@.block_free(board.settled()),
    {
        proof {
            use_type_invariant(&*self);
        }
        if board.overlaps(&self.block, self.block.rotation, delta) {
            false
        } else {
            proof {
                lemma_free_piece_is_near(
                    board.settled(),
                    self.block.shape,
                    self.block.rotation as int,
                    self.block.pos.x + delta.x,
                    self.block.pos.y + delta.y,
                );
            }
            self.block.pos = Vec2::new(self.block.pos.x + delta.x, self.block.pos.y + delta.y);
            self.last_move_was_turn = false;
            true
        }
    }

    /// Turns the active piece if it is free after the turn, in place or
    /// moved by one of the wall kicks of its shape: the first shift in
    /// table order that leaves it free is taken. If none does, the piece
    /// stays as it is. Returns whether it turned.
    pub fn try_rotate_block(&mut self, board: &CollisionManager, clockwise: bool) -> (turned: bool)
        requires
            old(self)@.block.pos.y - 2 >= i64::MIN,
        ensures
            turned == old(self)@.can_turn(board.settled(), clockwise),
            final(self)@ == old(self)@.turned(board.settled(), clockwise),
            turned ==> final(self)@.block_free(board.settled()),
    {
        proof {
            use_type_invariant(&*self);
            lemma_turn_keeps_free(old(self)@, board.settled(), clockwise);
        }
        let (current, target) = self.block.get_rotation_indexes(clockwise);
        let from = current % self.block.shape.rot_state_len();
        let kicks = self.block.shape.get_wall_kick_data(from, target);
        let ghost settled = board.settled();
        let ghost start = self.block;
        let ghost candidates = turn_candidates(start, clockwise);
        assert(candidates.len() == kicks@.len() + 1);
        assert(candidates[0] == (Vec2 { x: 0, y: 0 }));
        assert(forall|j: int| 0 <= j < kicks@.len() ==> candidates[j + 1] == #[trigger] kicks@[j]);
        if !board.overlaps(&self.block, target, Vec2::new(0, 0)) {
            self.block.rotation = target;
            self.last_move_was_turn = true;
            return true;
        }
        assert(first_fit(settled, start, target as int, candidates, 0) == first_fit(
            settled,
            start,
            target as int,
            candidates,
            1,
        ));
        let mut k: usize = 0;
        while k < kicks.len()
            invariant
                k <= kicks@.len(),
                self.well_formed(),
                *self == *old(self),
                start == self.block,
                settled == board.settled(),
                target == start.next_rotation(clockwise),
                candidates == turn_candidates(start, clockwise),
                candidates.len() == kicks@.len() + 1,
                kicks@ == wall_kicks(start.shape, from as int, target as int),
                forall|j: int| 0 <= j < kicks@.len() ==> candidates[j + 1] == #[trigger] kicks@[j],
                first_fit(settled, start, target as int, candidates, 0) == first_fit(
                    settled,
                    start,
                    target as int,
                    candidates,
                    k + 1,
                ),
                start.pos.y - 2 >= i64::MIN,
            decreases kicks@.len() - k,
        {
            let kick = kicks[k];
            assert(candidates[k + 1] == kick);
            if !board.overlaps(&self.block, target, kick) {
                proof {
                    lemma_free_piece_is_near(
                        settled,
                        start.shape,
                        target as int,
                        start.pos.x + kick.x,
                        start.pos.y + kick.y,
                    );
                    lemma_kicks_are_small(start.shape, from as int, target as int, k as int);
                }
                self.block.pos = Vec2::new(self.block.pos.x + kick.x, self.block.pos.y + kick.y);
                self.block.rotation = target;
                self.last_move_was_turn = true;
                return true;
            }
            k += 1;
        }
        false
    }

    /// Brings the landing preview up to date: a copy of the active piece,
    /// marked as a ghost, in the row where the piece would land.
    pub fn generate_ghost_block(&mut self, board: &CollisionManager)
        ensures
            final(self)@ == old(self)@.with_ghost(board.settled()),
    {
        proof {
            use_type_invariant(&*self);
        }
        let row = self.landing_row(board);
        let mut ghost_block = self.block.clone();
        ghost_block.pos.y = row;
        ghost_block.is_ghost = true;
        self.ghost_block = ghost_block;
    }

    /// The row in which the active piece would land.
    fn landing_row(&self, board: &CollisionManager) -> (row: i64)
        ensures
            row == self@.landing(board.settled()),
            row >= self@.block.pos.y,
    {
        let mut probe = self.block.clone();
        let ghost settled = board.settled();
        while !board.overlaps(&probe, probe.rotation, Vec2::new(0, 1))
            invariant
                probe.shape == self.block.shape,
                probe.rotation == self.block.rotation,
                probe.pos.x == self.block.pos.x,
                probe.pos.y >= self.block.pos.y,
                settled == board.settled(),
                landing_row(
                    settled,
                    probe.shape,
                    probe.rotation as int,
                    probe.pos.x as int,
                    probe.pos.y as int,
                ) == self@.landing(settled),
            decreases FIELD_FLOOR - probe.pos.y,
        {
            proof {
                lemma_free_piece_is_near(
                    settled,
                    probe.shape,
                    probe.rotation as int,
                    probe.pos.x as int,
                    probe.pos.y + 1,
                );
            }
            probe.pos.y = probe.pos.y + 1;
        }
        probe.pos.y
    }

    /// Drops the active piece to where it lands and sets the lock delay to
    /// its last count. Returns the number of rows it fell.
    pub fn hard_drop(&mut self, board: &CollisionManager) -> (distance: i64)
        requires
            FIELD_FLOOR - old(self)@.block.pos.y <= i64::MAX,
        ensures
            final(self)@ == old(self)@.hard_dropped(board.settled()),
            distance == old(self)@.landing(board.settled()) - old(self)@.block.pos.y,
            distance >= 0,
    {
        proof {
            use_type_invariant(&*self);
            lemma_landing_bounds(
                board.settled(),
                self.block.shape,
                self.block.rotation as int,
                self.block.pos.x as int,
                self.block.pos.y as int,
            );
        }
        self.generate_ghost_block(board);
        let distance = self.ghost_block.pos.y - self.block.pos.y;
        if distance != 0 {
            self.last_move_was_turn = false;
        }
        self.block = self.ghost_block.clone();
        self.placing_cooldown = 1;
        distance
    }

    /// Puts the next shape of the queue into play and refills the queue.
    pub fn generate_new_block(&mut self)
        ensures
            final(self)@ == old(self)@.with_next(final(self)@.queue),
            queue_drawn(old(self)@.queue, final(self)@.queue, old(self)@.piece_preview_count as int),
            final(self)@.valid(),
    {
        proof {
            use_type_invariant(&*self);
        }
        let (shape, queue) = draw_from(&self.queue, self.piece_preview_count);
        self.queue = queue;
        self.block = Block::new(shape);
        self.last_move_was_turn = false;
    }

    /// Swaps the active piece with the hold slot, once per piece: a second
    /// hold before the next lock does nothing. The shape that comes into
    /// play, from the slot or else from the queue, starts at the spawn point
    /// in its first rotation state. Returns whether the swap was made.
    pub fn hold(&mut self) -> (swapped: bool)
        ensures
            swapped == !old(self)@.has_held,
            final(self)@ == old(self)@.held(final(self)@.queue),
            !old(self)@.has_held && old(self)@.held_piece is None ==> queue_drawn(
                old(self)@.queue,
                final(self)@.queue,
                old(self)@.piece_preview_count as int,
            ),
            final(self)@.valid(),
    {
        proof {
            use_type_invariant(&*self);
        }
        if self.has_held {
            return false;
        }
        let current_held_piece = self.held_piece;
        self.held_piece = Some(self.block.shape);
        match current_held_piece {
            Some(shape) => {
                self.block = Block::new(shape);
                self.last_move_was_turn = false;
            },
            None => {
                self.generate_new_block();
            },
        }
        self.has_held = true;
        true
    }

    /// Makes the controller ready for the next piece: the lock delay is
    /// full again and the hold is free. Returns whether the active piece,
    /// which is about to lock, reaches above the top row of the field.
    pub fn reset(&mut self) -> (out_of_field: bool)
        ensures
            final(self)@ == old(self)@.rearmed(),
            out_of_field == above_field(old(self)@.block),
    {
        proof {
            use_type_invariant(&*self);
        }
        self.placing_cooldown = self.block_place_cooldown;
        self.has_held = false;
        reaches_above_field(&self.block)
    }

    /// Counts one frame of rest. Returns whether the lock delay has run out.
    pub fn count_down(&mut self) -> (expired: bool)
        ensures
            final(self)@ == old(self)@.counted_down(),
            expired == (final(self)@.placing_cooldown == 0),
    {
        proof {
            use_type_invariant(&*self);
        }
        if self.placing_cooldown > 0 {
            self.placing_cooldown = self.placing_cooldown - 1;
        }
        self.placing_cooldown == 0
    }

    /// Whether the active piece, as it stands on `board`, is a `T` that was
    /// turned into a slot. To be asked before the piece is committed.
    pub fn check_for_t_spin(&self, board: &CollisionManager) -> (spin: bool)
        ensures
            spin == self@.is_t_spin(board.settled()),
    {
        if !self.last_move_was_turn {
            return false;
        }
        match self.block.shape {
            BlockType::T => {},
            _ => {
                return false;
            },
        }
        let x = self.block.pos.x as i128;
        let y = self.block.pos.y as i128 + 1;
        let mut corners: u8 = 0;
        if board.cell_is_blocked(x - 1, y - 1) {
            corners += 1;
        }
        if board.cell_is_blocked(x + 1, y - 1) {
            corners += 1;
        }
        if board.cell_is_blocked(x - 1, y + 1) {
            corners += 1;
        }
        if board.cell_is_blocked(x + 1, y + 1) {
            corners += 1;
        }
        corners >= 3
    }
}

/// Whether some cell of `block` lies above the top row of the field.
fn reaches_above_field(block: &Block) -> (above: bool)
    ensures
        above == above_field(*block),
{
    let offsets = block.shape.get_rotation_state(block.rotation);
    let ghost cells = block.cells(block.rotation as int);
    let mut k: usize = 0;
    while k < 4
        invariant
            k <= 4,
            offsets@ == state_offsets(block.shape, block.rotation as int),
            cells == block.cells(block.rotation as int),
            forall|j: int| 0 <= j < k ==> (#[trigger] cells[j]).1 >= 0,
        decreases 4 - k,
    {
        if (block.pos.y as i128) + (offsets[k].y as i128) < 0 {
            assert(cells[k as int].1 < 0);
            return true;
        }
        k += 1;
    }
    false
}

/// A piece that is free lies in or above the field: its position is at most
/// a few columns outside the playable ones, and not below the field.
pub proof fn lemma_free_piece_is_near(
    settled: Set<(int, int)>,
    shape: BlockType,
    rotation: int,
    x: int,
    y: int,
)
    requires
        !shape_blocked(settled, shape, rotation, x, y),
    ensures
        FIELD_LEFT - 2 <= x <= FIELD_RIGHT + 1,
        y < FIELD_FLOOR,
{
    lemma_offsets_are_small(shape, rotation);
    let cells = shape_cells(shape, rotation, x, y);
    assert(!cell_blocked(settled, cells[0].0, cells[0].1));
}

/// A piece in the bottom row or below cannot go down.
pub proof fn lemma_floor_stops(settled: Set<(int, int)>, shape: BlockType, rotation: int, x: int, y: int)
    requires
        y >= FIELD_FLOOR,
    ensures
        shape_blocked(settled, shape, rotation, x, y),
{
    lemma_offsets_are_small(shape, rotation);
    let cells = shape_cells(shape, rotation, x, y);
    assert(cell_blocked(settled, cells[0].0, cells[0].1));
}

/// The landing row is not above the piece, and not below the bottom row
/// unless the piece is.
pub proof fn lemma_landing_bounds(settled: Set<(int, int)>, shape: BlockType, rotation: int, x: int, y: int)
    ensures
        y <= landing_row(settled, shape, rotation, x, y),
        landing_row(settled, shape, rotation, x, y) < FIELD_FLOOR || landing_row(
            settled,
            shape,
            rotation,
            x,
            y,
        ) == y,
    decreases FIELD_FLOOR - y,
{
    if y >= FIELD_FLOOR - 1 || shape_blocked(settled, shape, rotation, x, y + 1) {
    } else {
        lemma_landing_bounds(settled, shape, rotation, x, y + 1);
    }
}

/// The shift taken for a turn is the first in order that leaves the
/// piece free: it fits, and none before it does. If no index is returned,
/// none fits.
pub proof fn lemma_first_fit(
    settled: Set<(int, int)>,
    block: Block,
    target: int,
    candidates: Seq<Vec2>,
    from: int,
)
    requires
        0 <= from <= candidates.len(),
    ensures
        from <= first_fit(settled, block, target, candidates, from) <= candidates.len(),
        first_fit(settled, block, target, candidates, from) < candidates.len() ==> kick_fits(
            settled,
            block,
            target,
            candidates[first_fit(settled, block, target, candidates, from)],
        ),
        forall|j: int|
            from <= j < first_fit(settled, block, target, candidates, from) ==> !kick_fits(
                settled,
                block,
                target,
                #[trigger] candidates[j],
            ),
    decreases candidates.len() - from,
{
    if from < candidates.len() && !kick_fits(settled, block, target, candidates[from]) {
        lemma_first_fit(settled, block, target, candidates, from + 1);
    }
}

/// A free piece is still free where it lands, and cannot go further down
/// from there.
pub proof fn lemma_landing_is_free(settled: Set<(int, int)>, shape: BlockType, rotation: int, x: int, y: int)
    requires
        !shape_blocked(settled, shape, rotation, x, y),
    ensures
        !shape_blocked(settled, shape, rotation, x, landing_row(settled, shape, rotation, x, y)),
        shape_blocked(settled, shape, rotation, x, landing_row(settled, shape, rotation, x, y) + 1),
    decreases FIELD_FLOOR - y,
{
    if y >= FIELD_FLOOR - 1 {
        lemma_floor_stops(settled, shape, rotation, x, y + 1);
    } else if shape_blocked(settled, shape, rotation, x, y + 1) {
    } else {
        lemma_landing_is_free(settled, shape, rotation, x, y + 1);
    }
}

/// A turn that succeeds leaves the piece free, and moves it up by two rows
/// at most.
pub proof fn lemma_turn_keeps_free(state: ManagerView, settled: Set<(int, int)>, clockwise: bool)
    requires
        state.block.pos.y - 2 >= i64::MIN,
    ensures
        state.can_turn(settled, clockwise) ==> state.turned(settled, clockwise).block_free(settled),
        state.turned(settled, clockwise).block.pos.y >= state.block.pos.y - 2,
{
    let block = state.block;
    let target = block.next_rotation(clockwise);
    let candidates = turn_candidates(block, clockwise);
    lemma_first_fit(settled, block, target, candidates, 0);
    if state.can_turn(settled, clockwise) {
        let k = state.turn_choice(settled, clockwise);
        let kick = candidates[k];
        lemma_free_piece_is_near(settled, block.shape, target, block.pos.x + kick.x, block.pos.y + kick.y);
        if k > 0 {
            lemma_kicks_are_small(
                block.shape,
                block.rotation as int % state_count(block.shape),
                target,
                k - 1,
            );
        }
        assert(0 <= target < state_count(block.shape));
    }
}

/// A second hold before a lock changes nothing, whatever the first did.
pub proof fn lemma_second_hold_is_idle(
    state: ManagerView,
    first_queue: Seq<BlockType>,
    second_queue: Seq<BlockType>,
)
    ensures
        state.held(first_queue).held(second_queue) == state.held(first_queue),
{
}

/// A hold with an empty slot takes the next shape of the queue: that shape
/// enters the field, the shape of the active piece goes to the slot, and the
/// queue is one shorter, unless the draw left it too short and it was
/// refilled.
pub proof fn lemma_hold_draws_from_queue(state: ManagerView, queue: Seq<BlockType>)
    requires
        state.valid(),
        !state.has_held,
        state.held_piece is None,
        queue_drawn(state.queue, queue, state.piece_preview_count as int),
        state.queue.len() - 1 >= min_queue(state.piece_preview_count as int),
    ensures
        queue == state.queue.skip(1),
        queue.len() == state.queue.len() - 1,
        state.held(queue).block == spawned(state.queue[0]),
        state.held(queue).held_piece == Some(state.block.shape),
        state.held(queue).has_held,
{
    lemma_refill_len(state.queue.len() - 1, state.piece_preview_count as int);
    assert(queue =~= state.queue.skip(1));
}

/// No wall kick moves a piece by more than two cells either way.
pub proof fn lemma_kicks_are_small(shape: BlockType, from: int, to: int, k: int)
    requires
        0 <= k < wall_kicks(shape, from, to).len(),
    ensures
        -2 <= wall_kicks(shape, from, to)[k].x <= 2,
        -2 <= wall_kicks(shape, from, to)[k].y <= 2,
{
    let kicks = wall_kicks(shape, from, to);
    assert(kicks.len() == 4);
    if k == 0 {
    } else if k == 1 {
    } else if k == 2 {
    } else {
    }
}

} // verus!
