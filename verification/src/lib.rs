//! A single-player snake game engine on a fixed-size square grid with
//! toroidal (wrap-around) topology.
//!
//! The [`World`] owns one snake, the reward-cell placement, the game status
//! and the score; [`grid`] holds the pure cell-stepping function on the
//! wrapped grid together with its range and inversion lemmas.

pub mod grid;
mod rng;
pub mod snake;
pub mod world;

pub use grid::Direction;
pub use snake::SnakeCell;
pub use world::GameStatus;
pub use world::World;
