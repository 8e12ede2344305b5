use vstd::prelude::*;
use crate::grid::Position;
use crate::minesweeper_grid::{MinesweeperGrid, clear_around, is_consistent};

verus! {

/// A source of boards. A board is generated once the player opens the first
/// cell, so that the generator can keep mines away from it.
pub trait Generator {
    /// `grid` is a board that this generator may hand out for a first click
    /// on `pressed_position` of a `width` by `height` board. A generator
    /// that says nothing of its boards keeps this default, which holds of
    /// every board.
    open spec fn produces(&self, width: usize, height: usize, pressed_position: Position, grid: MinesweeperGrid) -> bool {
        true
    }

    /// A `width` by `height` board that this generator produces, whose
    /// contents follow its own mines, with no mine on `pressed_position` or
    /// around it.
    fn generate(&self, width: usize, height: usize, pressed_position: Position) -> (grid:
        MinesweeperGrid)
        requires
            width * height <= usize::MAX,
        ensures
            self.produces(width, height, pressed_position, grid),
            grid.wf(),
            grid.width == width,
            grid.height == height,
            is_consistent(grid),
            clear_around(grid, pressed_position),
    ;

    /// The generator's name, for display.
    fn name(&self) -> &'static str;
}

} // verus!
