use vstd::prelude::*;
use crate::cell::{Cell, CellContent, CellState};
use crate::generator::Generator;
use crate::grid::{Grid, Position};
use crate::minesweeper_game::{contents_from, first_board, play_result};
use crate::minesweeper_grid::{MinesweeperGrid, covered, flag_result};

verus! {

/// How far a plain game has got.
#[derive(Clone, Copy, Debug, PartialEq, Eq, Structural)]
pub enum Stage {
    JustCreated,
    Playing,
    GameOver,
}

/// A plain game of minesweeper: the board and the generator that lays the
/// mines on the first press. It keeps no score: opening a mine does not end
/// it, and flags can be toggled at any time.
pub struct Game<G: Generator> {
    stage: Stage,
    pub grid: MinesweeperGrid,
    generator: G,
}

impl<G: Generator> Game<G> {
    /// How far the game has got.
    pub closed spec fn stage(&self) -> Stage {
        self.stage
    }

    /// The generator that lays the mines on the first press.
    pub closed spec fn generator(&self) -> G {
        self.generator
    }

    /// The board as it stands.
    pub closed spec fn board(&self) -> MinesweeperGrid {
        self.grid
    }

    /// A game on a `width` by `height` board of covered cells; the mines are
    /// laid by `generator` on the first press.
    pub fn new(width: usize, height: usize, generator: G) -> (game: Self)
        requires
            width * height <= usize::MAX,
        ensures
            game.stage() == Stage::JustCreated,
            game.generator() == generator,
            game.board().wf(),
            game.board().width == width,
            game.board().height == height,
            forall|i: int|
                0 <= i < game.board().cells().len() ==> #[trigger] game.board().cells()[i] == covered(
                    CellContent::Empty,
                ),
    {
        Game { stage: Stage::JustCreated, grid: MinesweeperGrid::empty(width, height), generator }
    }

    /// The player presses the cell in column `x` of row `y`: the first press
    /// has the generator lay the mines; a covered cell is revealed (and the
    /// reveal spreads), an open numbered cell is chorded.
    pub fn press_cell(&mut self, x: usize, y: usize)
        requires
            old(self).board().wf(),
            old(self).stage() != Stage::GameOver ==> old(self).board().in_bounds(Position { x, y }),
        ensures
            final(self).generator() == old(self).generator(),
            final(self).board().width == old(self).board().width,
            final(self).board().height == old(self).board().height,
            old(self).stage() == Stage::GameOver ==> {
                &&& final(self).board().cells() == old(self).board().cells()
                &&& final(self).stage() == Stage::GameOver
            },
            old(self).stage() == Stage::Playing ==> {
                &&& final(self).board().cells() == play_result(old(self).board(), Position { x, y })
                &&& final(self).stage() == Stage::Playing
            },
            old(self).stage() == Stage::JustCreated ==> exists|started: Grid<Cell>, generated: Grid<Cell>|
                {
                    &&& #[trigger] first_board(
                        old(self).generator(),
                        started,
                        old(self).board(),
                        generated,
                        Position { x, y },
                    )
                    &&& final(self).board().cells() == play_result(started, Position { x, y })
                    &&& final(self).stage() == Stage::Playing
                },
    {
        let position = Position { x, y };
        let ghost before = self.grid;
        let ghost mut generated_board = self.grid;
        if self.stage == Stage::JustCreated {
            let Ghost(generated) = self.lay_mines(position);
            proof {
                generated_board = generated;
            }
        }
        let ghost started = self.grid;
        if self.stage == Stage::Playing {
            self.play_at(position);
        }
        proof {
            if old(self).stage == Stage::JustCreated {
                assert(first_board(self.generator, started, before, generated_board, position));
            }
        }
    }

    /// Has the generator lay the mines for a first press on `position`: the
    /// board takes the generated contents and the game starts.
    fn lay_mines(&mut self, position: Position) -> (generated: Ghost<Grid<Cell>>)
        requires
            old(self).grid.wf(),
            old(self).grid.in_bounds(position),
            old(self).stage == Stage::JustCreated,
        ensures
            final(self).grid.wf(),
            final(self).grid.width == old(self).grid.width,
            final(self).grid.height == old(self).grid.height,
            final(self).stage == Stage::Playing,
            final(self).generator == old(self).generator,
            first_board(old(self).generator, final(self).grid, old(self).grid, generated@, position),
    {
        let ghost before = self.grid;
        // The board's cells fit in a `Vec`, so `width * height` fits in a `usize`.
        let _size = self.grid.size();
        self.stage = Stage::Playing;
        let generated = self.generator.generate(self.grid.width, self.grid.height, position);
        self.grid.update_content(generated);
        proof {
            reveal(first_board);
            crate::minesweeper_game::lemma_same_contents(generated, self.grid, position);
            assert(contents_from(self.grid, before, generated));
        }
        Ghost(generated)
    }

    /// Plays a press on `position` of the running game: a covered cell is
    /// revealed, an open numbered cell is chorded.
    fn play_at(&mut self, position: Position)
        requires
            old(self).grid.wf(),
            old(self).grid.in_bounds(position),
        ensures
            final(self).grid.width == old(self).grid.width,
            final(self).grid.height == old(self).grid.height,
            final(self).grid.cells() == play_result(old(self).grid, position),
            final(self).stage == old(self).stage,
            final(self).generator == old(self).generator,
    {
        let cell = *self.grid.get(position);
        if cell.state == CellState::Covered {
            self.grid.uncover(position);
        } else {
            match cell.content {
                CellContent::Number(_) => {
                    self.grid.chord(position);
                },
                _ => {},
            }
        }
    }

    /// The player toggles the flag on the cell in column `x` of row `y`.
    pub fn flag(&mut self, x: usize, y: usize)
        requires
            old(self).board().wf(),
            old(self).board().in_bounds(Position { x, y }),
        ensures
            final(self).stage() == old(self).stage(),
            final(self).generator() == old(self).generator(),
            final(self).board().width == old(self).board().width,
            final(self).board().height == old(self).board().height,
            final(self).board().cells() == flag_result(old(self).board(), Position { x, y }),
    {
        self.grid.flag(Position { x, y });
    }
}

} // verus!
