//! The shape catalogue: for each of the seven shapes its rotation states,
//! its wall-kick candidates and its colour.
//!
//! Offsets are relative to the piece's position. Every shape but `O` has four
//! rotation states, indexed clockwise from the spawn orientation; `J`, `L`,
//! `S`, `T` and `Z` turn about the cell at offset `(0, 1)`, `I` about the
//! centre of its four-by-four box. `O` has a single state.

use crate::blocks::BlockType;
use crate::grid::Vec2;
use vstd::prelude::*;

verus! {

/// Shorthand for an offset in the tables below.
pub open spec fn at(x: int, y: int) -> Vec2 {
    Vec2 { x: x as i64, y: y as i64 }
}

/// The rotation states of `shape`, each as its four cell offsets.
pub open spec fn rotation_states(shape: BlockType) -> Seq<Seq<Vec2>> {
    match shape {
        BlockType::I => seq![
            seq![at(-1, 1), at(0, 1), at(1, 1), at(2, 1)],
            seq![at(1, 0), at(1, 1), at(1, 2), at(1, 3)],
            seq![at(-1, 2), at(0, 2), at(1, 2), at(2, 2)],
            seq![at(0, 0), at(0, 1), at(0, 2), at(0, 3)],
        ],
        BlockType::J => seq![
            seq![at(-1, 0), at(-1, 1), at(0, 1), at(1, 1)],
            seq![at(1, 0), at(0, 0), at(0, 1), at(0, 2)],
            seq![at(1, 2), at(1, 1), at(0, 1), at(-1, 1)],
            seq![at(-1, 2), at(0, 2), at(0, 1), at(0, 0)],
        ],
        BlockType::L => seq![
            seq![at(1, 0), at(-1, 1), at(0, 1), at(1, 1)],
            seq![at(1, 2), at(0, 0), at(0, 1), at(0, 2)],
            seq![at(-1, 2), at(1, 1), at(0, 1), at(-1, 1)],
            seq![at(-1, 0), at(0, 2), at(0, 1), at(0, 0)],
        ],
        BlockType::O => seq![seq![at(0, 0), at(1, 0), at(0, 1), at(1, 1)]],
        BlockType::S => seq![
            seq![at(0, 0), at(1, 0), at(-1, 1), at(0, 1)],
            seq![at(1, 1), at(1, 2), at(0, 0), at(0, 1)],
            seq![at(0, 2), at(-1, 2), at(1, 1), at(0, 1)],
            seq![at(-1, 1), at(-1, 0), at(0, 2), at(0, 1)],
        ],
        BlockType::T => seq![
            seq![at(0, 0), at(-1, 1), at(0, 1), at(1, 1)],
            seq![at(1, 1), at(0, 0), at(0, 1), at(0, 2)],
            seq![at(0, 2), at(1, 1), at(0, 1), at(-1, 1)],
            seq![at(-1, 1), at(0, 2), at(0, 1), at(0, 0)],
        ],
        BlockType::Z => seq![
            seq![at(-1, 0), at(0, 0), at(0, 1), at(1, 1)],
            seq![at(1, 0), at(1, 1), at(0, 1), at(0, 2)],
            seq![at(1, 2), at(0, 2), at(0, 1), at(-1, 1)],
            seq![at(-1, 2), at(-1, 1), at(0, 1), at(0, 0)],
        ],
    }
}

/// How many rotation states `shape` has.
pub open spec fn state_count(shape: BlockType) -> int {
    if shape == BlockType::O {
        1
    } else {
        4
    }
}

/// The four cell offsets of `shape` in the state that `rotation` names, the
/// index taken modulo the number of states.
pub open spec fn state_offsets(shape: BlockType, rotation: int) -> Seq<Vec2> {
    rotation_states(shape)[rotation % state_count(shape)]
}

/// The colour in which the cells of a shape are drawn, as red, green, blue.
pub open spec fn shape_colour(shape: BlockType) -> (u8, u8, u8) {
    match shape {
        BlockType::I => (0, 255, 255),
        BlockType::J => (0, 0, 255),
        BlockType::L => (255, 127, 0),
        BlockType::O => (255, 255, 0),
        BlockType::S => (0, 255, 0),
        BlockType::T => (160, 0, 240),
        BlockType::Z => (255, 0, 0),
    }
}

/// The wall-kick candidates of `shape` for the turn from state `from` to
/// state `to`, in the order in which they are tried after the plain
/// rotation. Pairs of states that no single turn joins have none.
pub open spec fn wall_kicks(shape: BlockType, from: int, to: int) -> Seq<Vec2> {
    match shape {
        BlockType::O => seq![],
        BlockType::I => {
            if from == 0 && to == 1 {
                seq![at(-2, 0), at(1, 0), at(-2, 1), at(1, -2)]
            } else if from == 1 && to == 0 {
                seq![at(2, 0), at(-1, 0), at(2, -1), at(-1, 2)]
            } else if from == 1 && to == 2 {
                seq![at(-1, 0), at(2, 0), at(-1, -2), at(2, 1)]
            } else if from == 2 && to == 1 {
                seq![at(1, 0), at(-2, 0), at(1, 2), at(-2, -1)]
            } else if from == 2 && to == 3 {
                seq![at(2, 0), at(-1, 0), at(2, -1), at(-1, 2)]
            } else if from == 3 && to == 2 {
                seq![at(-2, 0), at(1, 0), at(-2, 1), at(1, -2)]
            } else if from == 3 && to == 0 {
                seq![at(1, 0), at(-2, 0), at(1, 2), at(-2, -1)]
            } else if from == 0 && to == 3 {
                seq![at(-1, 0), at(2, 0), at(-1, -2), at(2, 1)]
            } else {
                seq![]
            }
        },
        _ => {
            if (from == 0 && to == 1) || (from == 2 && to == 1) {
                seq![at(-1, 0), at(-1, -1), at(0, 2), at(-1, 2)]
            } else if (from == 1 && to == 0) || (from == 1 && to == 2) {
                seq![at(1, 0), at(1, 1), at(0, -2), at(1, -2)]
            } else if (from == 2 && to == 3) || (from == 0 && to == 3) {
                seq![at(1, 0), at(1, -1), at(0, 2), at(1, 2)]
            } else if (from == 3 && to == 2) || (from == 3 && to == 0) {
                seq![at(-1, 0), at(-1, 1), at(0, -2), at(-1, -2)]
            } else {
                seq![]
            }
        },
    }
}

/// The shifts tried for a turn from `from` to `to`: no shift
/// first, then the wall kicks in table order.
pub open spec fn kick_candidates(shape: BlockType, from: int, to: int) -> Seq<Vec2> {
    seq![at(0, 0)] + wall_kicks(shape, from, to)
}

} // verus!
