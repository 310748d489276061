//! The game world: grid dimensions, one snake, reward-cell placement, game
//! status and score, advanced one tick at a time.

use crate::grid::{next_index, opposite, Direction};
use crate::snake::{Snake, SnakeCell};
use vstd::prelude::*;

verus! {

/// Status of a game once it has started; a world carries `None` before
/// `start_game` is called.
#[derive(Clone, Copy, PartialEq, Eq, Structural, Debug)]
pub enum GameStatus {
    Won,
    Lost,
    Played,
}

/// What `game_status_text` reports for each status.
pub open spec fn status_text(s: Option<GameStatus>) -> Seq<char> {
    match s {
        Some(GameStatus::Won) => "You have won"@,
        Some(GameStatus::Lost) => "You have lost"@,
        Some(GameStatus::Played) => "Playing"@,
        None => "No Status"@,
    }
}

/// The game world. `size` is always `width * width`, the number of cells of
/// the grid; `next_cell` holds a staged direction change, consumed on the
/// next tick.
pub struct World {
    width: usize,
    snake: Snake,
    size: usize,
    next_cell: Option<SnakeCell>,
    reward_cell: Option<usize>,
    status: Option<GameStatus>,
    points: usize,
}

impl World {
    /// The snake's body, head first.
    pub closed spec fn body_view(&self) -> Seq<SnakeCell> {
        self.snake.body@
    }

    /// The snake's current heading.
    pub closed spec fn heading(&self) -> Direction {
        self.snake.direction
    }

    /// The staged direction change, if one is pending.
    pub closed spec fn staged(&self) -> Option<SnakeCell> {
        self.next_cell
    }

    /// The reward cell, absent only once the game is won.
    pub closed spec fn reward(&self) -> Option<usize> {
        self.reward_cell
    }

    /// The game status, absent before the game starts.
    pub closed spec fn status_of(&self) -> Option<GameStatus> {
        self.status
    }

    /// The score: one point for each reward consumed.
    pub closed spec fn score(&self) -> usize {
        self.points
    }

    /// The side length of the square grid.
    pub closed spec fn grid_width(&self) -> usize {
        self.width
    }

    /// The total number of grid cells, `width * width`.
    pub closed spec fn grid_size(&self) -> usize {
        self.size
    }

    /// The cell the snake's head occupies.
    pub open spec fn head(&self) -> usize {
        self.body_view()[0].0
    }

    /// Well-formedness: the dimensions are consistent and small enough that
    /// stepping arithmetic cannot overflow, the body has at least its spawn
    /// length and never exceeds the grid, the score counts exactly the cells
    /// grown, every recorded cell lies on the grid, and the reward cell is
    /// absent exactly when the game is won.
    pub open spec fn wf(&self) -> bool {
        &&& 2 <= self.grid_width()
        &&& self.grid_size() == self.grid_width() * self.grid_width()
        &&& self.grid_size() + self.grid_width() <= usize::MAX
        &&& 3 <= self.body_view().len() <= self.grid_size()
        &&& self.body_view().len() == self.score() + 3
        &&& forall|i: int|
            0 <= i < self.body_view().len() ==> (#[trigger] self.body_view()[i]).0
                < self.grid_size()
        &&& match self.reward() {
            Some(r) => r < self.grid_size() && self.status_of() != Some(GameStatus::Won),
            None => self.status_of() == Some(GameStatus::Won),
        }
        &&& match self.staged() {
            Some(c) => c.0 < self.grid_size(),
            None => true,
        }
        &&& self.status_of() == Some(GameStatus::Won) ==> self.body_view().len()
            == self.grid_size()
    }

    /// The cell the head will occupy after the next tick while playing: the
    /// staged cell if one is pending, else one wrap-step along the heading.
    pub open spec fn planned_head(&self) -> int {
        match self.staged() {
            Some(c) => c.0 as int,
            None => next_index(self.head() as int, self.grid_width() as int, self.heading()),
        }
    }

    /// The body after the follow-the-leader shift of one tick: the planned
    /// head in front, every other cell taking its predecessor's place.
    pub open spec fn moved_body(&self) -> Seq<SnakeCell> {
        seq![SnakeCell(self.planned_head() as usize)] + self.body_view().drop_last()
    }

    /// Whether the planned head runs into the shifted body: self-collision.
    pub open spec fn self_hit(&self) -> bool {
        self.body_view().drop_last().contains(SnakeCell(self.planned_head() as usize))
    }

    /// All parts of the world that a tick can touch are equal.
    pub open spec fn same_view(a: World, b: World) -> bool {
        &&& a.body_view() == b.body_view()
        &&& a.heading() == b.heading()
        &&& a.staged() == b.staged()
        &&& a.reward() == b.reward()
        &&& a.status_of() == b.status_of()
        &&& a.score() == b.score()
        &&& a.grid_width() == b.grid_width()
        &&& a.grid_size() == b.grid_size()
    }

    /// A fresh world: a length-3 snake spawned at `snake_idx` counting
    /// downward, heading Right, one reward cell placed off the body, no
    /// status and no points yet. The spawn index must leave room for the
    /// body, the grid must hold more cells than the body, and the grid must
    /// be small enough for the stepping arithmetic.
    pub fn new(width: usize, snake_idx: usize) -> (w: World)
        requires
            2 <= width,
            width * width + width <= usize::MAX,
            2 <= snake_idx,
            snake_idx < width * width,
        ensures
            w.wf(),
            w.grid_width() == width,
            w.grid_size() == width * width,
            w.body_view().len() == 3,
            w.body_view()[0].0 == snake_idx,
            w.body_view()[1].0 == snake_idx - 1,
            w.body_view()[2].0 == snake_idx - 2,
            w.heading() == Direction::Right,
            w.status_of() is None,
            w.staged() is None,
            w.score() == 0,
            w.reward() matches Some(r) && r < width * width && !w.body_view().contains(
                SnakeCell(r),
            ),
    {
        proof {
            assert(4 <= width * width) by (nonlinear_arith)
                requires
                    2 <= width,
            ;
        }
        let size = width * width;
        let snake = Snake::new(snake_idx, 3);
        let world = World {
            width,
            reward_cell: World::gen_reward_cell(size, &snake.body),
            snake,
            size,
            next_cell: None,
            status: None,
            points: 0,
        };
        world
    }

    /// The score so far.
    pub fn points(&self) -> (r: usize)
        ensures
            r == self.score(),
    {
        self.points
    }

    /// Rejection-samples a uniformly random cell in `[0, max)` that the
    /// snake's body does not occupy. The body must leave at least one cell
    /// of the grid free, which the caller guarantees by checking occupancy
    /// against the grid size. Sampling has to terminate, so the draws are
    /// capped; after that many misses the scan below settles for the first
    /// free cell, which the occupancy precondition guarantees to exist.
    fn gen_reward_cell(max: usize, snake_body: &Vec<SnakeCell>) -> (r: Option<usize>)
        requires
            0 < max,
            snake_body@.len() < max,
        ensures
            r matches Some(c) && c < max && !snake_body@.contains(SnakeCell(c)),
    {
        let mut draws: usize = 0;
        while draws < 128
            invariant
                0 < max,
            decreases 128 - draws,
        {
            let reward_cell = crate::rng::rnd(max);
            if !cells_contain(snake_body, 0, snake_body.len(), reward_cell) {
                proof {
                    lemma_no_index_no_contains(snake_body@, reward_cell);
                }
                return Some(reward_cell);
            }
            draws += 1;
        }
        let mut c: usize = 0;
        while c < max
            invariant
                c <= max,
                forall|j: int|
                    0 <= j < c ==> snake_body@.contains(SnakeCell(#[trigger] (j as usize))),
            decreases max - c,
        {
            if !cells_contain(snake_body, 0, snake_body.len(), c) {
                proof {
                    lemma_no_index_no_contains(snake_body@, c);
                }
                return Some(c);
            }
            proof {
                let i = choose|i: int|
                    0 <= i < snake_body@.len() && (#[trigger] snake_body@[i]).0 == c;
                assert(snake_body@[i] == SnakeCell(c));
            }
            c += 1;
        }
        proof {
            lemma_free_cell_exists(snake_body@, max);
            let w = choose|w: int|
                0 <= w < max && !snake_body@.contains(SnakeCell(#[trigger] (w as usize)));
            assert(snake_body@.contains(SnakeCell(w as usize)));
        }
        vstd::pervasive::unreached()
    }

    /// The side length of the grid.
    pub fn width(&self) -> (r: usize)
        ensures
            r == self.grid_width(),
    {
        self.width
    }

    /// The reward cell, absent only once the game is won.
    pub fn reward_cell(&self) -> (r: Option<usize>)
        ensures
            r == self.reward(),
    {
        self.reward_cell
    }

    /// Starts the game: moves an unstarted world to Playing. It has no
    /// effect on a world that is already playing or finished.
    pub fn start_game(&mut self)
        requires
            old(self).wf(),
        ensures
            final(self).wf(),
            old(self).status_of() is None ==> final(self).status_of() == Some(
                GameStatus::Played,
            ),
            old(self).status_of() is Some ==> final(self).status_of() == old(self).status_of(),
            final(self).body_view() == old(self).body_view(),
            final(self).heading() == old(self).heading(),
            final(self).staged() == old(self).staged(),
            final(self).reward() == old(self).reward(),
            final(self).score() == old(self).score(),
            final(self).grid_width() == old(self).grid_width(),
            final(self).grid_size() == old(self).grid_size(),
    {
        match self.status {
            None => self.status = Some(GameStatus::Played),
            Some(_) => {},
        }
    }

    /// The game status, absent before the game starts.
    pub fn game_status(&self) -> (r: Option<GameStatus>)
        ensures
            r == self.status_of(),
    {
        self.status
    }

    /// A human-readable form of the game status.
    pub fn game_status_text(&self) -> (r: String)
        ensures
            r@ == status_text(self.status_of()),
    {
        match self.status {
            Some(GameStatus::Won) => "You have won".to_owned(),
            Some(GameStatus::Lost) => "You have lost".to_owned(),
            Some(GameStatus::Played) => "Playing".to_owned(),
            None => "No Status".to_owned(),
        }
    }

    /// The cell the snake's head occupies.
    pub fn snake_head_idx(&self) -> (r: usize)
        requires
            self.body_view().len() >= 1,
        ensures
            r == self.head(),
    {
        self.snake.body[0].0
    }

    /// A read-only view of the snake's body cells, head to tail.
    pub fn snake_cells(&self) -> (r: &Vec<SnakeCell>)
        ensures
            r@ == self.body_view(),
    {
        &self.snake.body
    }

    /// The number of cells the snake occupies.
    pub fn snake_length(&self) -> (r: usize)
        ensures
            r == self.body_view().len(),
    {
        self.snake.body.len()
    }

    /// One wrap-step from the current head along `direction`, written with
    /// per-direction edge tests rather than modulo; it agrees with
    /// [`next_index`] and never leaves the grid.
    fn gen_next_snake_cell(&self, direction: &Direction) -> (r: SnakeCell)
        requires
            self.wf(),
        ensures
            r.0 as int == next_index(self.head() as int, self.grid_width() as int, *direction),
            r.0 < self.grid_size(),
    {
        let snake_idx = self.snake_head_idx();
        let row = snake_idx / self.width;
        proof {
            crate::grid::lemma_row_bounds(snake_idx as int, self.width as int);
            crate::grid::lemma_next_index_in_range(
                snake_idx as int,
                self.width as int,
                *direction,
            );
            assert((row + 1) * (self.width as int) == row * (self.width as int)
                + self.width as int) by (nonlinear_arith);
            assert(row * (self.width as int) + self.width as int <= (self.width as int) * (
            self.width as int)) by (nonlinear_arith)
                requires
                    row + 1 <= self.width as int,
                    1 <= self.width as int,
            ;
        }
        match *direction {
            Direction::Right => {
                let threshold = (row + 1) * self.width;
                if snake_idx + 1 == threshold {
                    SnakeCell(threshold - self.width)
                } else {
                    SnakeCell(snake_idx + 1)
                }
            },
            Direction::Left => {
                let threshold = row * self.width;
                if snake_idx == threshold {
                    SnakeCell(threshold + (self.width - 1))
                } else {
                    SnakeCell(snake_idx - 1)
                }
            },
            Direction::Up => {
                let threshold = snake_idx - row * self.width;
                proof {
                    assert(row * (self.width as int) == 0 <==> row == 0) by (nonlinear_arith)
                        requires
                            1 <= self.width as int,
                            0 <= row,
                    ;
                    if row != 0 {
                        assert(self.width as int <= row * (self.width as int))
                            by (nonlinear_arith)
                            requires
                                1 <= row,
                                1 <= self.width as int,
                        ;
                    }
                    assert(self.width as int <= (self.width as int) * (self.width as int))
                        by (nonlinear_arith)
                        requires
                            1 <= self.width as int,
                    ;
                }
                if snake_idx == threshold {
                    SnakeCell((self.size - self.width) + threshold)
                } else {
                    SnakeCell(snake_idx - self.width)
                }
            },
            Direction::Down => {
                proof {
                    assert((self.width as int - row) * (self.width as int) == (self.width as int)
                        * (self.width as int) - row * (self.width as int)) by (nonlinear_arith);
                    assert(self.width as int == (self.width as int - row) * (self.width as int)
                        <==> row == self.width as int - 1) by (nonlinear_arith)
                        requires
                            1 <= self.width as int,
                            0 <= row < self.width as int,
                    ;
                }
                let threshold = snake_idx + (self.width - row) * self.width;
                if snake_idx + self.width == threshold {
                    SnakeCell(threshold - ((row + 1) * self.width))
                } else {
                    SnakeCell(snake_idx + self.width)
                }
            },
        }
    }

    /// Stages a direction change for the next tick. The cell the head would
    /// move to under the requested heading is computed; if it equals the
    /// body cell immediately behind the head, the change is rejected and
    /// nothing is recorded, which keeps the snake from reversing straight
    /// into itself. Otherwise the candidate cell is staged and the heading
    /// updated.
    pub fn change_snake_dir(&mut self, direction: Direction)
        requires
            old(self).wf(),
        ensures
            final(self).wf(),
            final(self).body_view() == old(self).body_view(),
            final(self).status_of() == old(self).status_of(),
            final(self).reward() == old(self).reward(),
            final(self).score() == old(self).score(),
            final(self).grid_width() == old(self).grid_width(),
            final(self).grid_size() == old(self).grid_size(),
            ({
                let cand = next_index(
                    old(self).head() as int,
                    old(self).grid_width() as int,
                    direction,
                );
                if cand == old(self).body_view()[1].0 as int {
                    final(self).heading() == old(self).heading() && final(self).staged() == old(self).staged()
                } else {
                    final(self).heading() == direction && final(self).staged() == Some(
                        SnakeCell(cand as usize),
                    )
                }
            }),
            (direction == opposite(old(self).heading()) && old(self).body_view()[1].0 as int
                == next_index(
                old(self).head() as int,
                old(self).grid_width() as int,
                opposite(old(self).heading()),
            )) ==> (final(self).heading() == old(self).heading() && final(self).staged() == old(self).staged()),
    {
        let next_cell = self.gen_next_snake_cell(&direction);
        if self.snake.body[1].0 == next_cell.0 {
            return ;
        }
        self.next_cell = Some(next_cell);
        self.snake.direction = direction;
    }

    /// Advances the game one tick. Before the game starts and after it is
    /// won or lost this changes nothing. While playing, the head moves to
    /// the staged cell if one is pending (consuming it) and one wrap-step
    /// along the heading otherwise, and the rest of the body follows the
    /// leader. If the new head runs into the shifted body the game is lost
    /// and nothing else happens this tick. If it lands on the reward cell
    /// with room to grow, the score and the body grow by one and a fresh
    /// reward cell is sampled off the body; with the grid full instead, the
    /// reward cell is cleared and the game is won.
    pub fn step(&mut self)
        requires
            old(self).wf(),
        ensures
            final(self).wf(),
            final(self).grid_width() == old(self).grid_width(),
            final(self).grid_size() == old(self).grid_size(),
            final(self).heading() == old(self).heading(),
            old(self).status_of() != Some(GameStatus::Played) ==> World::same_view(
                *old(self),
                *final(self),
            ),
            old(self).status_of() == Some(GameStatus::Played) ==> final(self).staged() is None,
            (old(self).status_of() == Some(GameStatus::Played) && old(self).self_hit()) ==> ({
                &&& final(self).status_of() == Some(GameStatus::Lost)
                &&& final(self).body_view() == old(self).moved_body()
                &&& final(self).score() == old(self).score()
                &&& final(self).reward() == old(self).reward()
            }),
            (old(self).status_of() == Some(GameStatus::Played) && !old(self).self_hit() && old(self).reward() == Some(old(self).planned_head() as usize) && old(self).body_view().len()
                < old(self).grid_size()) ==> ({
                &&& final(self).status_of() == Some(GameStatus::Played)
                &&& final(self).score() == old(self).score() + 1
                &&& final(self).body_view() == old(self).moved_body().push(
                    old(self).moved_body().last(),
                )
                &&& final(self).body_view().len() == old(self).body_view().len() + 1
                &&& (final(self).reward() matches Some(r) && r < old(self).grid_size() && !final(self).body_view().contains(SnakeCell(r)))
            }),
            (old(self).status_of() == Some(GameStatus::Played) && !old(self).self_hit() && old(self).reward() == Some(old(self).planned_head() as usize) && old(self).body_view().len()
                == old(self).grid_size()) ==> ({
                &&& final(self).status_of() == Some(GameStatus::Won)
                &&& final(self).reward() is None
                &&& final(self).body_view() == old(self).moved_body()
                &&& final(self).score() == old(self).score()
            }),
            (old(self).status_of() == Some(GameStatus::Played) && !old(self).self_hit() && old(self).reward() != Some(old(self).planned_head() as usize)) ==> ({
                &&& final(self).status_of() == Some(GameStatus::Played)
                &&& final(self).body_view() == old(self).moved_body()
                &&& final(self).score() == old(self).score()
                &&& final(self).reward() == old(self).reward()
            }),
    {
        let playing = match self.status {
            Some(GameStatus::Played) => true,
            _ => false,
        };
        if !playing {
            return ;
        }
        let len = self.snake.body.len();
        let temp = copy_cells(&self.snake.body);
        let new_head: SnakeCell = match self.next_cell {
            Some(cell) => {
                self.next_cell = None;
                cell
            },
            None => self.gen_next_snake_cell(&self.snake.direction),
        };
        let ghost ph = old(self).planned_head();
        proof {
            crate::grid::lemma_next_index_in_range(
                old(self).head() as int,
                old(self).grid_width() as int,
                old(self).heading(),
            );
            assert(new_head.0 == ph as usize);
            assert(new_head == SnakeCell(ph as usize));
        }
        self.snake.body.set(0, new_head);
        let mut i: usize = 1;
        while i < len
            invariant
                1 <= i <= len,
                len == temp@.len(),
                temp@ == old(self).body_view(),
                self.snake.body@.len() == len,
                self.snake.body@[0] == new_head,
                forall|j: int| 1 <= j < i ==> self.snake.body@[j] == temp@[j - 1],
                forall|j: int| i <= j < len ==> self.snake.body@[j] == temp@[j],
                self.width == old(self).grid_width(),
                self.size == old(self).grid_size(),
                self.status == old(self).status_of(),
                self.points == old(self).score(),
                self.reward_cell == old(self).reward(),
                self.next_cell is None,
                self.snake.direction == old(self).heading(),
            decreases len - i,
        {
            let prev = temp[i - 1];
            self.snake.body.set(i, prev);
            i += 1;
        }
        proof {
            assert(self.snake.body@ =~= old(self).moved_body());
            assert forall|k: int|
                0 <= k < self.snake.body@.len() implies (#[trigger] self.snake.body@[k]).0
                < self.size by {
                if k > 0 {
                    assert(self.snake.body@[k] == old(self).body_view()[k - 1]);
                }
            }
        }
        let hit = cells_contain(&self.snake.body, 1, len, new_head.0);
        proof {
            lemma_hit_iff_self_hit(*old(self), self.snake.body@, len as int, ph);
            assert(hit == old(self).self_hit());
        }
        if hit {
            self.status = Some(GameStatus::Lost);
            return ;
        }
        let hit_reward = match self.reward_cell {
            Some(r) => r == new_head.0,
            None => false,
        };
        if hit_reward {
            if len < self.size {
                self.points = self.points + 1;
                self.reward_cell = World::gen_reward_cell(self.size, &self.snake.body);
                let tail = self.snake.body[len - 1];
                self.snake.body.push(tail);
                proof {
                    let grown = old(self).moved_body().push(old(self).moved_body().last());
                    assert(old(self).moved_body().last() == old(self).moved_body()[len - 1]);
                    assert(self.snake.body@ =~= grown);
                    let r = self.reward_cell->0;
                    assert(!old(self).moved_body().contains(SnakeCell(r)));
                    assert(old(self).moved_body().contains(old(self).moved_body().last()));
                    assert forall|k: int| 0 <= k < grown.len() implies (#[trigger] grown[k]) != SnakeCell(
                        r,
                    ) by {
                        if k < len {
                            assert(grown[k] == old(self).moved_body()[k]);
                            assert(old(self).moved_body().contains(old(self).moved_body()[k]));
                        }
                    }
                    if grown.contains(SnakeCell(r)) {
                        let k = choose|k: int| 0 <= k < grown.len() && grown[k] == SnakeCell(r);
                        assert(false);
                    }
                }
            } else {
                self.reward_cell = None;
                self.status = Some(GameStatus::Won);
            }
        }
    }
}

/// Whether some cell of `v` in the index range `[lo, hi)` holds `target`.
/// A copy of the body cells: the previous tick's snapshot that the
/// follow-the-leader shift reads from.
fn copy_cells(v: &Vec<SnakeCell>) -> (r: Vec<SnakeCell>)
    ensures
        r@ == v@,
{
    let mut r: Vec<SnakeCell> = Vec::new();
    let mut i: usize = 0;
    while i < v.len()
        invariant
            i <= v@.len(),
            r@.len() == i,
            forall|j: int| 0 <= j < i ==> r@[j] == v@[j],
        decreases v@.len() - i,
    {
        let c = v[i];
        r.push(c);
        i += 1;
    }
    proof {
        assert(r@ =~= v@);
    }
    r
}

/// The new head sits in the shifted body's tail section exactly when it sits
/// in the old body with the old tail cell dropped.
proof fn lemma_hit_iff_self_hit(w: World, moved: Seq<SnakeCell>, len: int, ph: int)
    requires
        w.body_view().len() == len,
        1 <= len,
        moved == seq![SnakeCell(ph as usize)] + w.body_view().drop_last(),
    ensures
        (exists|i: int| 1 <= i < len && (#[trigger] moved[i]).0 == ph as usize)
            <==> w.body_view().drop_last().contains(SnakeCell(ph as usize)),
{
    let dl = w.body_view().drop_last();
    assert(moved.len() == len);
    if exists|i: int| 1 <= i < len && (#[trigger] moved[i]).0 == ph as usize {
        let i = choose|i: int| 1 <= i < len && (#[trigger] moved[i]).0 == ph as usize;
        assert(moved[i] == dl[i - 1]);
        assert(dl[i - 1] == SnakeCell(ph as usize));
        assert(dl.contains(SnakeCell(ph as usize)));
    }
    if dl.contains(SnakeCell(ph as usize)) {
        let j = choose|j: int| 0 <= j < dl.len() && dl[j] == SnakeCell(ph as usize);
        assert(moved[j + 1] == dl[j]);
        assert(moved[j + 1].0 == ph as usize);
    }
}

/// A sequence with no cell holding `target` at any index does not contain
/// the cell `SnakeCell(target)`.
proof fn lemma_no_index_no_contains(cells: Seq<SnakeCell>, target: usize)
    requires
        !(exists|i: int| 0 <= i < cells.len() && (#[trigger] cells[i]).0 == target),
    ensures
        !cells.contains(SnakeCell(target)),
{
    if cells.contains(SnakeCell(target)) {
        let i = choose|i: int| 0 <= i < cells.len() && cells[i] == SnakeCell(target);
        assert(cells[i].0 == target);
    }
}

/// Pigeonhole: a body with fewer cells than the grid leaves at least one
/// grid cell free.
proof fn lemma_free_cell_exists(cells: Seq<SnakeCell>, max: usize)
    requires
        cells.len() < max,
    ensures
        exists|c: int| 0 <= c < max && !cells.contains(SnakeCell(#[trigger] (c as usize))),
{
    broadcast use vstd::seq_lib::seq_to_set_is_finite;

    if !(exists|c: int| 0 <= c < max && !cells.contains(SnakeCell(#[trigger] (c as usize)))) {
        let vals = cells.map_values(|cell: SnakeCell| cell.0 as int);
        vals.lemma_cardinality_of_set();
        assert forall|c: int|
            vstd::set_lib::set_int_range(0, max as int).contains(c) implies vals.to_set().contains(
            c,
        ) by {
            assert(cells.contains(SnakeCell(c as usize)));
            let i = choose|i: int| 0 <= i < cells.len() && cells[i] == SnakeCell(c as usize);
            assert(vals[i] == c);
            assert(vals.contains(c));
        }
        vstd::set_lib::lemma_int_range(0, max as int);
        vstd::set_lib::lemma_len_subset(
            vstd::set_lib::set_int_range(0, max as int),
            vals.to_set(),
        );
    }
}

/// Whether some cell of `v` in the index range `[lo, hi)` holds `target`.
fn cells_contain(v: &Vec<SnakeCell>, lo: usize, hi: usize, target: usize) -> (found: bool)
    requires
        lo <= hi <= v@.len(),
    ensures
        found == exists|i: int| lo <= i < hi && (#[trigger] v@[i]).0 == target,
{
    let mut k = lo;
    while k < hi
        invariant
            lo <= k <= hi <= v@.len(),
            forall|i: int| lo <= i < k ==> (#[trigger] v@[i]).0 != target,
        decreases hi - k,
    {
        if v[k].0 == target {
            assert(v@[k as int].0 == target);
            return true;
        }
        k += 1;
    }
    false
}

} // verus!
