//! Shapes and pieces.

use crate::block_data::{rotation_states, shape_colour, state_count, state_offsets, wall_kicks};
use crate::grid::{all_cells_in_field, in_field, Vec2, FIELD_FLOOR, FIELD_LEFT, FIELD_RIGHT};
use rand::seq::SliceRandom;
use vstd::prelude::*;

verus! {

/// Direction sign of a rotation: `1` for clockwise, `-1` for anticlockwise.
pub open spec fn polarity(clockwise: bool) -> int {
    if clockwise {
        1
    } else {
        -1
    }
}

/// The direction sign of a rotation as a number: `1` for `true`, clockwise,
/// and `-1` for `false`.
pub fn bool_to_polarity(value: bool) -> (sign: isize)
    ensures
        sign == polarity(value),
{
    if value {
        1
    } else {
        -1
    }
}

/// The seven shapes.
#[derive(Debug, Clone, Copy, PartialEq, Eq, Hash, Structural)]
pub enum BlockType {
    I,
    J,
    L,
    O,
    S,
    T,
    Z,
}

/// One bag: every shape, each exactly once, in some order.
pub open spec fn is_bag(shapes: Seq<BlockType>) -> bool {
    &&& shapes.len() == 7
    &&& shapes.no_duplicates()
    &&& forall|shape: BlockType| #[trigger] shapes.contains(shape)
}

/// The shapes in their fixed catalogue order.
pub open spec fn all_variants() -> Seq<BlockType> {
    seq![
        BlockType::I,
        BlockType::J,
        BlockType::L,
        BlockType::O,
        BlockType::S,
        BlockType::T,
        BlockType::Z,
    ]
}

/// `SliceRandom::shuffle` with the thread-local generator: reorders the
/// seven shapes in place. Whatever order comes out, it holds the same shapes
/// as before, each as often as before; nothing else is claimed of it.
#[verifier::external_body]
fn shuffle_shapes(shapes: &mut [BlockType; 7])
    ensures
        final(shapes)@.to_multiset() == old(shapes)@.to_multiset(),
{
    shapes.shuffle(&mut rand::thread_rng());
}

/// The catalogue order is itself a bag.
pub proof fn lemma_all_variants_is_bag()
    ensures
        is_bag(all_variants()),
{
    let s = all_variants();
    assert forall|shape: BlockType| #[trigger] s.contains(shape) by {
        match shape {
            BlockType::I => assert(s[0] == shape),
            BlockType::J => assert(s[1] == shape),
            BlockType::L => assert(s[2] == shape),
            BlockType::O => assert(s[3] == shape),
            BlockType::S => assert(s[4] == shape),
            BlockType::T => assert(s[5] == shape),
            BlockType::Z => assert(s[6] == shape),
        }
    }
}

/// Any reordering of a bag is a bag.
pub proof fn lemma_shuffled_bag_is_bag(before: Seq<BlockType>, after: Seq<BlockType>)
    requires
        is_bag(before),
        after.to_multiset() == before.to_multiset(),
    ensures
        is_bag(after),
{
    broadcast use vstd::seq_lib::group_to_multiset_ensures;

    before.lemma_multiset_has_no_duplicates();
    after.lemma_multiset_has_no_duplicates_conv();
    assert forall|shape: BlockType| #[trigger] after.contains(shape) by {
        assert(before.contains(shape));
        assert(before.to_multiset().count(shape) > 0);
    }
    assert(after.len() == after.to_multiset().len());
    assert(before.len() == before.to_multiset().len());
}

impl BlockType {
    /// A fresh bag: all seven shapes in a random order.
    pub fn bag() -> (shapes: [Self; 7])
        ensures
            is_bag(shapes@),
    {
        let mut variants = [
            BlockType::I,
            BlockType::J,
            BlockType::L,
            BlockType::O,
            BlockType::S,
            BlockType::T,
            BlockType::Z,
        ];
        proof {
            assert(variants@ =~= all_variants());
            lemma_all_variants_is_bag();
        }
        let ghost before = variants@;
        shuffle_shapes(&mut variants);
        proof {
            lemma_shuffled_bag_is_bag(before, variants@);
        }
        variants
    }

    /// The colour in which the cells of the shape are drawn, as red, green,
    /// blue.
    pub fn get_colour(self) -> (rgb: (u8, u8, u8))
        ensures
            rgb == shape_colour(self),
    {
        match self {
            BlockType::I => (0, 255, 255),
            BlockType::J => (0, 0, 255),
            BlockType::L => (255, 127, 0),
            BlockType::O => (255, 255, 0),
            BlockType::S => (0, 255, 0),
            BlockType::T => (160, 0, 240),
            BlockType::Z => (255, 0, 0),
        }
    }

    /// How many rotation states the shape has.
    pub fn rot_state_len(self) -> (n: usize)
        ensures
            n == state_count(self),
    {
        match self {
            BlockType::O => 1,
            _ => 4,
        }
    }

    /// The four cell offsets of the shape in the rotation state that
    /// `rotation` names, the index taken modulo the number of states.
    pub fn get_rotation_state(self, rotation: usize) -> (offsets: [Vec2; 4])
        ensures
            offsets@ == state_offsets(self, rotation as int),
    {
        let r = rotation % self.rot_state_len();
        let offsets = match self {
            BlockType::I => match r {
                0 => [Vec2::new(-1, 1), Vec2::new(0, 1), Vec2::new(1, 1), Vec2::new(2, 1)],
                1 => [Vec2::new(1, 0), Vec2::new(1, 1), Vec2::new(1, 2), Vec2::new(1, 3)],
                2 => [Vec2::new(-1, 2), Vec2::new(0, 2), Vec2::new(1, 2), Vec2::new(2, 2)],
                _ => [Vec2::new(0, 0), Vec2::new(0, 1), Vec2::new(0, 2), Vec2::new(0, 3)],
            },
            BlockType::J => match r {
                0 => [Vec2::new(-1, 0), Vec2::new(-1, 1), Vec2::new(0, 1), Vec2::new(1, 1)],
                1 => [Vec2::new(1, 0), Vec2::new(0, 0), Vec2::new(0, 1), Vec2::new(0, 2)],
                2 => [Vec2::new(1, 2), Vec2::new(1, 1), Vec2::new(0, 1), Vec2::new(-1, 1)],
                _ => [Vec2::new(-1, 2), Vec2::new(0, 2), Vec2::new(0, 1), Vec2::new(0, 0)],
            },
            BlockType::L => match r {
                0 => [Vec2::new(1, 0), Vec2::new(-1, 1), Vec2::new(0, 1), Vec2::new(1, 1)],
                1 => [Vec2::new(1, 2), Vec2::new(0, 0), Vec2::new(0, 1), Vec2::new(0, 2)],
                2 => [Vec2::new(-1, 2), Vec2::new(1, 1), Vec2::new(0, 1), Vec2::new(-1, 1)],
                _ => [Vec2::new(-1, 0), Vec2::new(0, 2), Vec2::new(0, 1), Vec2::new(0, 0)],
            },
            BlockType::O => [Vec2::new(0, 0), Vec2::new(1, 0), Vec2::new(0, 1), Vec2::new(1, 1)],
            BlockType::S => match r {
                0 => [Vec2::new(0, 0), Vec2::new(1, 0), Vec2::new(-1, 1), Vec2::new(0, 1)],
                1 => [Vec2::new(1, 1), Vec2::new(1, 2), Vec2::new(0, 0), Vec2::new(0, 1)],
                2 => [Vec2::new(0, 2), Vec2::new(-1, 2), Vec2::new(1, 1), Vec2::new(0, 1)],
                _ => [Vec2::new(-1, 1), Vec2::new(-1, 0), Vec2::new(0, 2), Vec2::new(0, 1)],
            },
            BlockType::T => match r {
                0 => [Vec2::new(0, 0), Vec2::new(-1, 1), Vec2::new(0, 1), Vec2::new(1, 1)],
                1 => [Vec2::new(1, 1), Vec2::new(0, 0), Vec2::new(0, 1), Vec2::new(0, 2)],
                2 => [Vec2::new(0, 2), Vec2::new(1, 1), Vec2::new(0, 1), Vec2::new(-1, 1)],
                _ => [Vec2::new(-1, 1), Vec2::new(0, 2), Vec2::new(0, 1), Vec2::new(0, 0)],
            },
            BlockType::Z => match r {
                0 => [Vec2::new(-1, 0), Vec2::new(0, 0), Vec2::new(0, 1), Vec2::new(1, 1)],
                1 => [Vec2::new(1, 0), Vec2::new(1, 1), Vec2::new(0, 1), Vec2::new(0, 2)],
                2 => [Vec2::new(1, 2), Vec2::new(0, 2), Vec2::new(0, 1), Vec2::new(-1, 1)],
                _ => [Vec2::new(-1, 2), Vec2::new(-1, 1), Vec2::new(0, 1), Vec2::new(0, 0)],
            },
        };
        assert(offsets@ =~= state_offsets(self, rotation as int));
        offsets
    }
    /// The wall-kick candidates for the turn from state `from` to state `to`,
    /// in the order in which they are tried after the plain rotation.
    pub fn get_wall_kick_data(self, from: usize, to: usize) -> (kicks: Vec<Vec2>)
        ensures
            kicks@ == wall_kicks(self, from as int, to as int),
    {
        let kicks = match self {
            BlockType::O => Vec::new(),
            BlockType::I => {
                if (from == 0 && to == 1) || (from == 3 && to == 2) {
                    vec![Vec2::new(-2, 0), Vec2::new(1, 0), Vec2::new(-2, 1), Vec2::new(1, -2)]
                } else if (from == 1 && to == 0) || (from == 2 && to == 3) {
                    vec![Vec2::new(2, 0), Vec2::new(-1, 0), Vec2::new(2, -1), Vec2::new(-1, 2)]
                } else if (from == 1 && to == 2) || (from == 0 && to == 3) {
                    vec![Vec2::new(-1, 0), Vec2::new(2, 0), Vec2::new(-1, -2), Vec2::new(2, 1)]
                } else if (from == 2 && to == 1) || (from == 3 && to == 0) {
                    vec![Vec2::new(1, 0), Vec2::new(-2, 0), Vec2::new(1, 2), Vec2::new(-2, -1)]
                } else {
                    Vec::new()
                }
            },
            _ => {
                if (from == 0 && to == 1) || (from == 2 && to == 1) {
                    vec![Vec2::new(-1, 0), Vec2::new(-1, -1), Vec2::new(0, 2), Vec2::new(-1, 2)]
                } else if (from == 1 && to == 0) || (from == 1 && to == 2) {
                    vec![Vec2::new(1, 0), Vec2::new(1, 1), Vec2::new(0, -2), Vec2::new(1, -2)]
                } else if (from == 2 && to == 3) || (from == 0 && to == 3) {
                    vec![Vec2::new(1, 0), Vec2::new(1, -1), Vec2::new(0, 2), Vec2::new(1, 2)]
                } else if (from == 3 && to == 2) || (from == 3 && to == 0) {
                    vec![Vec2::new(-1, 0), Vec2::new(-1, 1), Vec2::new(0, -2), Vec2::new(-1, -2)]
                } else {
                    Vec::new()
                }
            },
        };
        assert(kicks@ =~= wall_kicks(self, from as int, to as int));
        kicks
    }
}

/// Where every piece enters the field.
pub open spec fn spawn_point() -> Vec2 {
    Vec2 { x: 5, y: 0 }
}

/// A piece: a shape at a position, in one of its rotation states.
///
/// `rotation` is read modulo the number of states of the shape, so every
/// value of it names a state. `is_ghost` only tells a renderer to draw the
/// piece as a landing preview.
#[derive(Debug)]
pub struct Block {
    pub pos: Vec2,
    pub shape: BlockType,
    pub rotation: usize,
    pub is_ghost: bool,
}

/// The four cells that `shape` covers at `(x, y)` in the state that
/// `rotation` names.
pub open spec fn shape_cells(shape: BlockType, rotation: int, x: int, y: int) -> Seq<(int, int)> {
    Seq::new(
        4,
        |k: int| (x + state_offsets(shape, rotation)[k].x, y + state_offsets(shape, rotation)[k].y),
    )
}

impl Block {
    /// The cells the piece would cover in the state that `rotation` names.
    pub open spec fn cells(self, rotation: int) -> Seq<(int, int)> {
        shape_cells(self.shape, rotation, self.pos.x as int, self.pos.y as int)
    }

    /// The state a turn leads to: one step on, or one step back, modulo the
    /// number of states.
    pub open spec fn next_rotation(self, clockwise: bool) -> int {
        (self.rotation + polarity(clockwise)) % state_count(self.shape)
    }

    /// The piece after a turn in place.
    pub open spec fn rotated(self, clockwise: bool) -> Block {
        Block { rotation: self.next_rotation(clockwise) as usize, ..self }
    }

    /// Whether the coordinates of every cell of the piece fit in `i64`.
    pub open spec fn cells_fit(self) -> bool {
        &&& i64::MIN <= self.pos.x - 1
        &&& self.pos.x + 2 <= i64::MAX
        &&& self.pos.y + 3 <= i64::MAX
    }

    /// A piece of `shape` at the spawn point, in its first rotation state.
    pub fn new(shape: BlockType) -> (block: Self)
        ensures
            block == (Block { pos: spawn_point(), shape, rotation: 0, is_ghost: false }),
    {
        Block { pos: Vec2::new(5, 0), shape, rotation: 0, is_ghost: false }
    }

    /// The current rotation index and the index a turn would lead to.
    pub fn get_rotation_indexes(&self, clockwise: bool) -> (indexes: (usize, usize))
        ensures
            indexes.0 == self.rotation,
            indexes.1 == self.next_rotation(clockwise),
    {
        let n = self.shape.rot_state_len();
        let current = self.rotation % n;
        let sign = bool_to_polarity(clockwise);
        let next = ((current as isize + n as isize + sign) as usize) % n;
        assert(next == self.next_rotation(clockwise)) by {
            if n == 1 {
            } else {
                assert(n == 4);
            }
        }
        (self.rotation, next)
    }

    /// Turns the piece in place. Nothing is tested against a board here.
    pub fn rotate(&mut self, clockwise: bool)
        ensures
            *final(self) == old(self).rotated(clockwise),
    {
        let (_, next) = self.get_rotation_indexes(clockwise);
        self.rotation = next;
    }

    /// The cells the piece would cover in the state that `rotation` names.
    pub fn occupied_cells(&self, rotation: usize) -> (cells: Vec<Vec2>)
        requires
            self.cells_fit(),
        ensures
            cells@.len() == 4,
            cells@.map_values(|c: Vec2| c.cell()) == self.cells(rotation as int),
    {
        let offsets = self.shape.get_rotation_state(rotation);
        proof {
            lemma_offsets_are_small(self.shape, rotation as int);
        }
        let mut cells: Vec<Vec2> = Vec::new();
        let mut k: usize = 0;
        while k < 4
            invariant
                k <= 4,
                self.cells_fit(),
                offsets@ == state_offsets(self.shape, rotation as int),
                offsets_are_small(offsets@),
                cells@.len() == k,
                forall|j: int|
                    0 <= j < k ==> (#[trigger] cells@[j]).cell() == self.cells(rotation as int)[j],
            decreases 4 - k,
        {
            cells.push(Vec2::new(self.pos.x + offsets[k].x, self.pos.y + offsets[k].y));
            k += 1;
        }
        assert(cells@.map_values(|c: Vec2| c.cell()) =~= self.cells(rotation as int));
        cells
    }
}

impl Block {
    /// Whether every cell of the piece lies inside the playable area, so
    /// that the piece can be committed to a board.
    pub fn lies_in_field(&self) -> (inside: bool)
        ensures
            inside == all_cells_in_field(self.cells(self.rotation as int)),
    {
        let offsets = self.shape.get_rotation_state(self.rotation);
        let ghost cells = self.cells(self.rotation as int);
        let mut k: usize = 0;
        while k < 4
            invariant
                k <= 4,
                offsets@ == state_offsets(self.shape, self.rotation as int),
                cells == self.cells(self.rotation as int),
                forall|j: int| 0 <= j < k ==> in_field((#[trigger] cells[j]).0, cells[j].1),
            decreases 4 - k,
        {
            let x = self.pos.x as i128 + offsets[k].x as i128;
            let y = self.pos.y as i128 + offsets[k].y as i128;
            assert(cells[k as int] == (x as int, y as int));
            if x < FIELD_LEFT as i128 || x > FIELD_RIGHT as i128 || y < 0 || y >= FIELD_FLOOR as i128 {
                return false;
            }
            k += 1;
        }
        true
    }
}

impl Clone for Block {
    /// A copy of the piece that is not a ghost.
    fn clone(&self) -> (copy: Self)
        ensures
            copy == (Block { is_ghost: false, ..*self }),
    {
        Block { pos: self.pos, shape: self.shape, rotation: self.rotation, is_ghost: false }
    }
}

/// Every offset of a rotation state lies in the four-by-four box whose
/// columns are `-1..=2` and whose rows are `0..=3`.
pub open spec fn offsets_are_small(offsets: Seq<Vec2>) -> bool {
    &&& offsets.len() == 4
    &&& forall|k: int| 0 <= k < 4 ==> -1 <= (#[trigger] offsets[k]).x <= 2 && 0 <= offsets[k].y <= 3
}

pub proof fn lemma_offsets_are_small(shape: BlockType, rotation: int)
    ensures
        offsets_are_small(state_offsets(shape, rotation)),
{
    let r = rotation % state_count(shape);
    assert(0 <= r < state_count(shape));
    let s = rotation_states(shape)[r];
    assert(s.len() == 4);
    assert forall|k: int| 0 <= k < 4 implies -1 <= (#[trigger] s[k]).x <= 2 && 0 <= s[k].y <= 3 by {
        if k == 0 {
        } else if k == 1 {
        } else if k == 2 {
        } else {
        }
    }
}

/// Every turn of a shape with four rotation states has its wall kicks: four
/// candidates for the step to the next state, and four for the step back.
pub proof fn lemma_every_turn_has_kicks(shape: BlockType, from: int, clockwise: bool)
    requires
        shape != BlockType::O,
        0 <= from < 4,
    ensures
        wall_kicks(shape, from, (from + polarity(clockwise)) % 4).len() == 4,
{
}

/// Every rotation state of every shape has four cells, no two of them the
/// same.
pub proof fn lemma_state_has_four_cells(shape: BlockType, rotation: int)
    ensures
        state_offsets(shape, rotation).len() == 4,
        state_offsets(shape, rotation).no_duplicates(),
{
    let r = rotation % state_count(shape);
    assert(0 <= r < state_count(shape));
    let s = rotation_states(shape)[r];
    assert(s.len() == 4);
    assert(s[0] != s[1] && s[0] != s[2] && s[0] != s[3] && s[1] != s[2] && s[1] != s[3] && s[2] != s[3]);
}

/// Whatever the shape, the position and the rotation index, a piece covers
/// four cells, no two of them the same.
pub proof fn lemma_piece_covers_four_cells(block: Block, rotation: int)
    ensures
        block.cells(rotation).len() == 4,
        block.cells(rotation).no_duplicates(),
{
    lemma_state_has_four_cells(block.shape, rotation);
    let offsets = state_offsets(block.shape, rotation);
    let cells = block.cells(rotation);
    assert forall|a: int, b: int| 0 <= a < 4 && 0 <= b < 4 && a != b implies cells[a] != cells[b] by {
        assert(offsets[a] != offsets[b]);
    }
}

/// A turn one way and a turn back leave a piece with a valid rotation
/// index as it was.
pub proof fn lemma_turn_and_back(block: Block, clockwise: bool)
    requires
        block.rotation < state_count(block.shape),
    ensures
        block.rotated(clockwise).rotated(!clockwise) == block,
{
}

/// As many turns the same way as the shape has rotation states bring a
/// piece back: four turns, whatever the shape, leave its position and shape
/// as they were, its rotation index reduced modulo the number of states,
/// and its cells the same.
pub proof fn lemma_four_turns_return(block: Block, clockwise: bool)
    ensures
        ({
            let back = block.rotated(clockwise).rotated(clockwise).rotated(clockwise).rotated(clockwise);
            &&& back == (Block {
                rotation: (block.rotation as int % state_count(block.shape)) as usize,
                ..block
            })
            &&& back.cells(back.rotation as int) == block.cells(block.rotation as int)
            &&& block.rotation < state_count(block.shape) ==> back == block
        }),
{
    let n = state_count(block.shape);
    let turned = block.rotated(clockwise).rotated(clockwise).rotated(clockwise).rotated(clockwise);
    if n == 1 {
        assert(turned.rotation == 0);
    } else {
        assert(n == 4);
        let r = block.rotation as int % 4;
        let r1 = block.rotated(clockwise).rotation as int;
        assert(r1 == (r + polarity(clockwise)) % 4);
    }
    assert(state_offsets(block.shape, turned.rotation as int) == state_offsets(
        block.shape,
        block.rotation as int,
    ));
}

} // verus!
