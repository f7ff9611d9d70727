//! A brush that sweeps over a character-grid terminal: where it goes, which
//! cells it covers on its way, and what is sent to the terminal to show it.
//!
//! Everything here works on the grid, in integers. `roots` and `direction`
//! hold the arithmetic: integer square roots, and whole steps along a
//! direction. `point` and `segment` hold grid points, segments and the
//! cells on a segment, `dedupe` the filter that drops a cell repeated in a
//! row. `scan` and `curve` lay out the two paths of the brush, `brush`
//! says what the brush covers at a point of its path, `canvas` clips cells
//! to the visible grid and turns them into requests to the terminal,
//! `terminal` renders a request as text, and `driver` tells frame by frame
//! what to do next.

pub mod roots;
pub mod direction;
pub mod point;
pub mod dedupe;
pub mod segment;
pub mod terminal;
pub mod canvas;
pub mod brush;
pub mod scan;
pub mod curve;
pub mod driver;
