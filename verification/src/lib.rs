//! Geometry of a bounded hexagonal game board.
//!
//! Axial coordinates with a derived cube coordinate, neighbor generation,
//! hex distance, ring-bounded validity, a deterministic three-coloring of
//! the tiles, and the projection of the board onto a fixed-cell character
//! grid for rendering.

pub mod coordinates;
pub mod layout;
