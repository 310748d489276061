//! The snake: an ordered body of grid cells, head first, plus its heading.

use crate::grid::Direction;
use vstd::prelude::*;

verus! {

/// One cell of the snake's body: an index into the flattened grid.
#[derive(Clone, Copy, PartialEq, Eq, Structural, Debug)]
pub struct SnakeCell(pub usize);

/// Ordered body of cells, head at index 0, tail at the end, and the current
/// heading. The world mutates the body directly; the snake itself only knows
/// how to spawn.
pub(crate) struct Snake {
    pub(crate) body: Vec<SnakeCell>,
    pub(crate) direction: Direction,
}

impl Snake {
    /// Builds a body of `size` cells counting downward from `spawn_index`,
    /// heading initialized to Right. The caller must pick a spawn position
    /// high enough that no index goes negative.
    pub(crate) fn new(spawn_index: usize, size: usize) -> (s: Snake)
        requires
            size <= spawn_index + 1,
        ensures
            s.body@.len() == size,
            forall|i: int| 0 <= i < size ==> (#[trigger] s.body@[i]).0 == spawn_index - i,
            s.direction == Direction::Right,
    {
        let mut body: Vec<SnakeCell> = Vec::new();
        for i in 0..size
            invariant
                size <= spawn_index + 1,
                body@.len() == i,
                forall|j: int| 0 <= j < i ==> (#[trigger] body@[j]).0 == spawn_index - j,
        {
            body.push(SnakeCell(spawn_index - i));
        }
        Snake { body, direction: Direction::Right }
    }
}

} // verus!
