//! A dense two-dimensional matrix over an arbitrary element type, with
//! row, column, diagonal and whole-matrix views, construction from ragged
//! nested rows, and a bordered text rendering.

pub mod matrix;
pub mod views;
pub mod display;
pub mod game;

pub use crate::display::render_table;
pub use crate::game::{Direction, Game, SlideGame};
pub use crate::matrix::Matrix;
pub use crate::views::{Col, Diag, MatrixIterator, Row};
