use vstd::prelude::*;
use crate::cell::Cell;
use crate::flood::flood_result;
use crate::generator::Generator;
use crate::grid::{Grid, Position, in_grid};
use crate::minesweeper_grid::MinesweeperGrid;
use crate::minesweeper_game::lemma_same_contents;
use crate::minesweeper_grid::{clear_around, is_consistent};
use crate::random_generator::{RandomGenerator, is_random_layout, lemma_random_layout_sound, random_board};
use crate::rng::{nth_seeded_u64, seeded_u64};

verus! {

/// Draws random boards until the solver can clear one: each candidate is a
/// board of the random generator, seeded from a stream that starts at `seed`,
/// with the first click already played.
pub struct NaiveSolvableGenerator {
    pub num_mines: usize,
    pub seed: u64,
}

/// One run of the naive generator for a first click on a board. Whoever runs
/// it asks for a candidate, has the solver judge it, and records the verdict,
/// until a candidate is approved; that candidate is the run's board.
pub struct NaiveGeneration {
    width: usize,
    height: usize,
    pressed_position: Position,
    num_mines: usize,
    seed: u64,
    draws: u128,
    grid: MinesweeperGrid,
    pending: bool,
    approved: bool,
}

/// `g` is a board of the random generator for a first click on `pressed`,
/// with that first cell opened.
pub open spec fn is_opened_random_board(
    g: Grid<Cell>,
    w: usize,
    h: usize,
    pressed: Position,
    num_mines: usize,
) -> bool {
    exists|laid: Grid<Cell>|
        #[trigger] is_random_layout(laid, w, h, pressed, num_mines) && g.cells() == flood_result(
            laid,
            pressed,
        )
}

/// `g` is the board that the random generator lays with `seed` for a first
/// click on `pressed`, with that first cell opened.
pub open spec fn is_seeded_opened_board(
    g: Grid<Cell>,
    w: usize,
    h: usize,
    pressed: Position,
    num_mines: usize,
    seed: u64,
) -> bool {
    exists|laid: Grid<Cell>|
        {
            &&& #[trigger] laid.wf()
            &&& laid.width == w
            &&& laid.height == h
            &&& laid.cells() == random_board(w, h, pressed, num_mines, seed)
            &&& g.cells() == flood_result(laid, pressed)
        }
}

/// The count of draws after one more: the stream of a `Pcg64` repeats after
/// 2^128 draws, so the count wraps there.
pub open spec fn next_draw(k: u128) -> u128 {
    if k < u128::MAX {
        (k + 1) as u128
    } else {
        0
    }
}

proof fn lemma_opened_random_board(
    g: Grid<Cell>,
    laid: Grid<Cell>,
    w: usize,
    h: usize,
    pressed: Position,
    num_mines: usize,
)
    requires
        is_random_layout(laid, w, h, pressed, num_mines),
        g.cells() == flood_result(laid, pressed),
    ensures
        is_opened_random_board(g, w, h, pressed, num_mines),
{
}

impl NaiveGeneration {
    pub closed spec fn width(&self) -> usize {
        self.width
    }

    pub closed spec fn height(&self) -> usize {
        self.height
    }

    pub closed spec fn pressed_position(&self) -> Position {
        self.pressed_position
    }

    pub closed spec fn num_mines(&self) -> usize {
        self.num_mines
    }

    /// The seed of the run's stream.
    pub closed spec fn seed(&self) -> u64 {
        self.seed
    }

    /// How many numbers the run has drawn from its stream.
    pub closed spec fn draws(&self) -> u128 {
        self.draws
    }

    /// The board of the last candidate.
    pub closed spec fn board(&self) -> Grid<Cell> {
        self.grid
    }

    /// A candidate awaits the solver's verdict.
    pub closed spec fn is_pending(&self) -> bool {
        self.pending
    }

    /// The solver approved the last candidate.
    pub closed spec fn is_approved(&self) -> bool {
        self.approved
    }

    pub closed spec fn wf(&self) -> bool {
        &&& self.width * self.height <= usize::MAX
        &&& in_grid(self.width, self.height, self.pressed_position)
        &&& self.grid.wf()
        &&& self.grid.width == self.width
        &&& self.grid.height == self.height
        &&& !(self.pending && self.approved)
        &&& (self.pending || self.approved) ==> is_opened_random_board(
            self.grid,
            self.width,
            self.height,
            self.pressed_position,
            self.num_mines,
        )
    }

    /// The run is done once the solver has approved a candidate.
    pub fn is_done(&self) -> (r: bool)
        ensures
            r == self.is_approved(),
    {
        self.approved
    }

    /// Draws the next candidate: the board of the random generator seeded
    /// with the next number of the run's stream, with its first cell opened.
    pub fn next_candidate(&mut self)
        requires
            old(self).wf(),
            !old(self).is_approved(),
        ensures
            final(self).wf(),
            final(self).width() == old(self).width(),
            final(self).height() == old(self).height(),
            final(self).pressed_position() == old(self).pressed_position(),
            final(self).num_mines() == old(self).num_mines(),
            final(self).seed() == old(self).seed(),
            final(self).draws() == next_draw(old(self).draws()),
            final(self).is_pending(),
            !final(self).is_approved(),
            is_seeded_opened_board(
                final(self).board(),
                old(self).width(),
                old(self).height(),
                old(self).pressed_position(),
                old(self).num_mines(),
                seeded_u64(old(self).seed(), old(self).draws()),
            ),
            is_opened_random_board(
                final(self).board(),
                old(self).width(),
                old(self).height(),
                old(self).pressed_position(),
                old(self).num_mines(),
            ),
    {
        let seed = nth_seeded_u64(self.seed, self.draws);
        self.draws = if self.draws < u128::MAX {
            self.draws + 1
        } else {
            0
        };
        let generator = RandomGenerator { num_mines: self.num_mines, seed };
        let mut grid = generator.generate(self.width, self.height, self.pressed_position);
        let ghost laid = grid;
        grid.uncover(self.pressed_position);
        proof {
            lemma_opened_random_board(grid, laid, self.width, self.height, self.pressed_position, self.num_mines);
            assert(laid.wf());
        }
        self.grid = grid;
        self.pending = true;
    }

    /// The candidate board that awaits the solver's verdict.
    pub fn candidate(&self) -> (r: &MinesweeperGrid)
        ensures
            *r == self.board(),
    {
        &self.grid
    }

    /// Records the solver's verdict on the candidate: the run is done when
    /// the solver can clear it.
    pub fn record_verdict(&mut self, solvable: bool)
        requires
            old(self).wf(),
            old(self).is_pending(),
        ensures
            final(self).wf(),
            !final(self).is_pending(),
            final(self).is_approved() == solvable,
            final(self).width() == old(self).width(),
            final(self).height() == old(self).height(),
            final(self).pressed_position() == old(self).pressed_position(),
            final(self).num_mines() == old(self).num_mines(),
            final(self).board() == old(self).board(),
    {
        self.pending = false;
        self.approved = solvable;
    }

    /// The board that the run ends with: the candidate that the solver
    /// approved.
    pub fn finish(self) -> (g: MinesweeperGrid)
        requires
            self.wf(),
            self.is_approved(),
        ensures
            g == self.board(),
            g.wf(),
            g.width == self.width(),
            g.height == self.height(),
            is_opened_random_board(g, self.width(), self.height(), self.pressed_position(), self.num_mines()),
            is_consistent(g),
            clear_around(g, self.pressed_position()),
    {
        proof {
            let laid = choose|laid: Grid<Cell>|
                #[trigger] is_random_layout(
                    laid,
                    self.width,
                    self.height,
                    self.pressed_position,
                    self.num_mines,
                ) && self.grid.cells() == flood_result(laid, self.pressed_position);
            lemma_random_layout_sound(laid, self.width, self.height, self.pressed_position, self.num_mines);
            lemma_same_contents(laid, self.grid, self.pressed_position);
        }
        self.grid
    }
}

impl NaiveSolvableGenerator {
    /// Starts a run for a first click on `pressed_position` of a `width` by
    /// `height` board.
    pub fn start(&self, width: usize, height: usize, pressed_position: Position) -> (run:
        NaiveGeneration)
        requires
            width * height <= usize::MAX,
            in_grid(width, height, pressed_position),
        ensures
            run.wf(),
            !run.is_pending(),
            !run.is_approved(),
            run.width() == width,
            run.height() == height,
            run.pressed_position() == pressed_position,
            run.num_mines() == self.num_mines,
            run.seed() == self.seed,
            run.draws() == 0,
    {
        NaiveGeneration {
            width,
            height,
            pressed_position,
            num_mines: self.num_mines,
            seed: self.seed,
            draws: 0,
            grid: MinesweeperGrid::empty(width, height),
            pending: false,
            approved: false,
        }
    }

    pub fn name(&self) -> (r: &'static str)
        ensures
            r@ == "Naïve Solvable Generator"@,
    {
        "Naïve Solvable Generator"
    }
}

} // verus!
