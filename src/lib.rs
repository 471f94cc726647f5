//! Integer grid coordinates and the coordinate patterns (neighborhoods and
//! line traces) that select cells of a grid.

pub mod coord;
pub mod grid;
pub mod life;
pub mod patterns;

pub use coord::Coord;
