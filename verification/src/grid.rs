//! The toroidal grid and the pure wrap-around stepping function.
//!
//! A cell is an index into a flattened `width x width` grid, in
//! `[0, width * width)`. Rows wrap horizontally and columns wrap vertically,
//! each axis independently.

use vstd::arithmetic::div_mod::{
    lemma_fundamental_div_mod, lemma_fundamental_div_mod_converse, lemma_mod_bound,
};
use vstd::prelude::*;

verus! {

/// Heading of the snake on the grid.
#[derive(Clone, Copy, PartialEq, Eq, Structural, Debug)]
pub enum Direction {
    Up,
    Right,
    Down,
    Left,
}

/// The heading that points the opposite way.
pub open spec fn opposite(d: Direction) -> Direction {
    match d {
        Direction::Up => Direction::Down,
        Direction::Right => Direction::Left,
        Direction::Down => Direction::Up,
        Direction::Left => Direction::Right,
    }
}

/// The cell one step from `head` in direction `dir` on the toroidal
/// `width x width` grid: a step off the right or left edge re-enters the same
/// row from the other side, and a step off the top or bottom edge re-enters
/// the same column from the other side.
pub open spec fn next_index(head: int, width: int, dir: Direction) -> int {
    let row = head / width;
    match dir {
        Direction::Right => {
            if head + 1 == (row + 1) * width {
                (row + 1) * width - width
            } else {
                head + 1
            }
        },
        Direction::Left => {
            if head == row * width {
                row * width + (width - 1)
            } else {
                head - 1
            }
        },
        Direction::Up => {
            if row == 0 {
                (width * width - width) + (head - row * width)
            } else {
                head - width
            }
        },
        Direction::Down => {
            if row == width - 1 {
                head - row * width
            } else {
                head + width
            }
        },
    }
}

/// The row of a grid cell stays within the grid, and the cell sits inside
/// that row's index range.
pub proof fn lemma_row_bounds(head: int, width: int)
    requires
        1 <= width,
        0 <= head < width * width,
    ensures
        ({
            let row = head / width;
            &&& 0 <= row < width
            &&& row * width <= head < row * width + width
        }),
{
    lemma_fundamental_div_mod(head, width);
    lemma_mod_bound(head, width);
    let row = head / width;
    assert(row * width <= head < row * width + width) by (nonlinear_arith)
        requires
            head == width * row + head % width,
            0 <= head % width < width,
    ;
    assert(0 <= row < width) by (nonlinear_arith)
        requires
            row * width <= head < row * width + width,
            0 <= head < width * width,
            1 <= width,
    ;
}

/// The wrap-stepping function never leaves the grid: for every direction and
/// every head cell in `[0, width * width)`, the next cell is in
/// `[0, width * width)` as well.
pub proof fn lemma_next_index_in_range(head: int, width: int, dir: Direction)
    requires
        1 <= width,
        0 <= head < width * width,
    ensures
        0 <= next_index(head, width, dir) < width * width,
{
    lemma_row_bounds(head, width);
    let row = head / width;
    assert((row + 1) * width == row * width + width) by (nonlinear_arith);
    assert(0 <= row * width) by (nonlinear_arith)
        requires
            0 <= row,
            0 <= width,
    ;
    assert(row * width + width <= width * width) by (nonlinear_arith)
        requires
            row + 1 <= width,
            1 <= width,
    ;
    match dir {
        Direction::Right => {
        },
        Direction::Left => {
        },
        Direction::Up => {
            if row != 0 {
                assert(width <= row * width) by (nonlinear_arith)
                    requires
                        1 <= row,
                        1 <= width,
                ;
            }
        },
        Direction::Down => {
            if row != width - 1 {
                assert(row * width + width + width <= width * width) by (nonlinear_arith)
                    requires
                        row + 2 <= width,
                        1 <= width,
                ;
            }
        },
    }
}

/// Stepping one cell in any direction and then one cell in the opposite
/// direction returns to the starting cell: the grid is a ring in both axes.
pub proof fn lemma_next_index_opposite(head: int, width: int, dir: Direction)
    requires
        1 <= width,
        0 <= head < width * width,
    ensures
        next_index(next_index(head, width, dir), width, opposite(dir)) == head,
{
    lemma_row_bounds(head, width);
    lemma_next_index_in_range(head, width, dir);
    let row = head / width;
    let col = head - row * width;
    let mid = next_index(head, width, dir);
    assert((row + 1) * width == row * width + width) by (nonlinear_arith);
    match dir {
        Direction::Right => {
            if head + 1 == (row + 1) * width {
                lemma_fundamental_div_mod_converse(row * width, width, row, 0);
            } else {
                lemma_fundamental_div_mod_converse(head + 1, width, row, col + 1);
            }
        },
        Direction::Left => {
            if head == row * width {
                lemma_fundamental_div_mod_converse(row * width + (width - 1), width, row, width - 1);
            } else {
                lemma_fundamental_div_mod_converse(head - 1, width, row, col - 1);
            }
        },
        Direction::Up => {
            if row == 0 {
                assert((width - 1) * width == width * width - width) by (nonlinear_arith);
                lemma_fundamental_div_mod_converse(width * width - width + head, width, width - 1, head);
                assert(mid / width == width - 1);
            } else {
                assert((row - 1) * width == row * width - width) by (nonlinear_arith);
                lemma_fundamental_div_mod_converse(head - width, width, row - 1, col);
            }
        },
        Direction::Down => {
            if row == width - 1 {
                lemma_fundamental_div_mod_converse(col, width, 0, col);
                assert(width * width - width == row * width) by (nonlinear_arith)
                    requires
                        row == width - 1,
                ;
            } else {
                lemma_fundamental_div_mod_converse(head + width, width, row + 1, col);
            }
        },
    }
}

} // verus!
