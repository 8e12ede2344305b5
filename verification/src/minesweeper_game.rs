use vstd::prelude::*;
use crate::cell::{Cell, CellContent, CellState, revealed_cell};
use crate::flood::flood_result;
use crate::generator::Generator;
use crate::solver::{SolveStatus, SolverError};
use crate::grid::{Grid, Position, count_in};
use crate::minesweeper_grid::{
    CellFilter, MinesweeperGrid, chord_result, clear_around, count_cells, covered, flag_result,
    is_consistent, solved,
};

verus! {

/// Where a game stands.
#[derive(Clone, Copy, Debug, PartialEq, Eq, Structural)]
pub enum State {
    JustCreated,
    Playing,
    GameOver,
    YouWon,
}

/// A game of minesweeper: the board, where the game stands, and the generator
/// that lays the mines once the first cell is opened.
pub struct MinesweeperGame<G: Generator> {
    pub state: State,
    pub grid: MinesweeperGrid,
    pub generator: G,
    pub status_message: String,
}

/// The cells of `g` after the player opens `p`: a covered cell is revealed
/// and the reveal spreads; on an open numbered cell the player chords.
pub open spec fn play_result(g: Grid<Cell>, p: Position) -> Seq<Cell> {
    if g.at(p).state == CellState::Covered {
        flood_result(g, p)
    } else if g.at(p).content is Number {
        chord_result(g, p)
    } else {
        g.cells()
    }
}

/// `cells` with every covered mine revealed.
pub open spec fn mines_shown(cells: Seq<Cell>) -> Seq<Cell> {
    Seq::new(
        cells.len(),
        |i: int|
            if cells[i].content == CellContent::Mine {
                revealed_cell(cells[i])
            } else {
                cells[i]
            },
    )
}

/// The board after a move that left `played`: once a mine is open, all
/// mines are shown.
pub open spec fn outcome_cells(played: Seq<Cell>) -> Seq<Cell> {
    if count_cells(played, CellFilter::RevealedMine) > 0 {
        mines_shown(played)
    } else {
        played
    }
}

/// Where the game stands after a move that left `played`: lost once a mine
/// is open, won once no more cells are hidden than there are mines.
pub open spec fn outcome_state(played: Seq<Cell>) -> State {
    if count_cells(played, CellFilter::RevealedMine) > 0 {
        State::GameOver
    } else if solved(played) {
        State::YouWon
    } else {
        State::Playing
    }
}

/// `started` is `before` with the contents of a freshly generated board
/// for a first click on `p`: the player's view of each cell is kept, the
/// contents follow their own mines, and no mine lies on `p` or around it.
pub open spec fn is_fresh_start(started: Grid<Cell>, before: Grid<Cell>, p: Position) -> bool {
    &&& started.wf()
    &&& started.width == before.width
    &&& started.height == before.height
    &&& started.cells().len() == before.cells().len()
    &&& forall|i: int|
        0 <= i < started.cells().len() ==> (#[trigger] started.cells()[i]).state
            == before.cells()[i].state
    &&& is_consistent(started)
    &&& clear_around(started, p)
}

/// `started` is `before` with the contents of `generated`: every cell keeps
/// what the player sees of it and takes the content of the generated cell at
/// the same index.
pub open spec fn contents_from(started: Grid<Cell>, before: Grid<Cell>, generated: Grid<Cell>) -> bool {
    &&& started.width == before.width
    &&& started.height == before.height
    &&& started.cells().len() == before.cells().len()
    &&& forall|i: int|
        0 <= i < started.cells().len() ==> #[trigger] started.cells()[i] == (Cell {
            content: generated.cells()[i].content,
            state: before.cells()[i].state,
        })
}

/// `started` is the board on which the first click on `p` is played: `before`
/// with the contents of a board `generated` that `generator` produces for
/// that click.
#[verifier::opaque]
pub open spec fn first_board<G: Generator>(
    generator: G,
    started: Grid<Cell>,
    before: Grid<Cell>,
    generated: Grid<Cell>,
    p: Position,
) -> bool {
    &&& generator.produces(before.width, before.height, p, generated)
    &&& generated.wf()
    &&& generated.width == before.width
    &&& generated.height == before.height
    &&& contents_from(started, before, generated)
    &&& is_fresh_start(started, before, p)
}

impl<G: Generator> MinesweeperGame<G> {
    /// A game on a `width` by `height` board of covered cells; the mines are
    /// laid by `generator` on the first reveal.
    pub fn new(width: usize, height: usize, generator: G) -> (game: Self)
        requires
            width * height <= usize::MAX,
        ensures
            game.state == State::JustCreated,
            game.generator == generator,
            game.grid.wf(),
            game.grid.width == width,
            game.grid.height == height,
            forall|i: int|
                0 <= i < game.grid.cells().len() ==> #[trigger] game.grid.cells()[i] == covered(
                    CellContent::Empty,
                ),
            game.status_message@ == Seq::<char>::empty(),
    {
        MinesweeperGame {
            state: State::JustCreated,
            grid: MinesweeperGrid::empty(width, height),
            generator,
            status_message: String::new(),
        }
    }

    /// The player opens `position`. The first reveal has the generator lay
    /// the mines; once the game is over or won, nothing changes.
    pub fn uncover(&mut self, position: Position)
        requires
            old(self).grid.wf(),
            old(self).state == State::JustCreated || old(self).state == State::Playing
                ==> old(self).grid.in_bounds(position),
        ensures
            final(self).status_message@ == Seq::<char>::empty(),
            final(self).generator == old(self).generator,
            final(self).grid.width == old(self).grid.width,
            final(self).grid.height == old(self).grid.height,
            old(self).state == State::GameOver || old(self).state == State::YouWon ==> {
                &&& final(self).grid.cells() == old(self).grid.cells()
                &&& final(self).state == old(self).state
            },
            old(self).state == State::Playing ==> {
                &&& final(self).grid.cells() == outcome_cells(play_result(old(self).grid, position))
                &&& final(self).state == outcome_state(play_result(old(self).grid, position))
            },
            old(self).state == State::JustCreated ==> exists|started: Grid<Cell>, generated: Grid<Cell>|
                {
                    &&& #[trigger] first_board(old(self).generator, started, old(self).grid, generated, position)
                    &&& final(self).grid.cells() == outcome_cells(play_result(started, position))
                    &&& final(self).state == outcome_state(play_result(started, position))
                },
    {
        self.status_message = String::new();
        let ghost before = self.grid;
        // The board's cells fit in a `Vec`, so `width * height` fits in a `usize`.
        let _size = self.grid.size();
        if self.state == State::JustCreated {
            self.state = State::Playing;
            let generated = self.generator.generate(self.grid.width, self.grid.height, position);
            self.grid.update_content(generated);
            proof {
                assert(first_board(self.generator, self.grid, before, generated, position)) by {
                    reveal(first_board);
                    crate::minesweeper_game::lemma_same_contents(generated, self.grid, position);
                    assert(contents_from(self.grid, before, generated));
                }
            }
        }
        if self.state == State::Playing {
            let ghost started = self.grid;
            let cell = *self.grid.get(position);
            if cell.state == CellState::Covered {
                self.grid.uncover(position);
            } else {
                match cell.content {
                    CellContent::Number(_) => {
                        self.grid.chord(position);
                    },
                    _ => {},
                }
            }
            assert(self.grid.cells() == play_result(started, position));
            if self.grid.count_revealed_mines() > 0 {
                self.grid.reveal_mines();
                self.state = State::GameOver;
                assert(self.grid.cells() =~= mines_shown(play_result(started, position)));
            } else if self.grid.is_solved() {
                self.state = State::YouWon;
            }
        }
    }

    /// Takes in what a solve of the board ended with: a stuck solver leaves a
    /// message that the board needs a guess, a won board wins the game, a
    /// failed solve leaves a message that the solver went wrong, and progress
    /// changes nothing.
    pub fn record_solve(&mut self, outcome: Result<SolveStatus, SolverError>)
        ensures
            final(self).grid == old(self).grid,
            final(self).generator == old(self).generator,
            final(self).state == if outcome == Ok::<SolveStatus, SolverError>(SolveStatus::Won) {
                State::YouWon
            } else {
                old(self).state
            },
            final(self).status_message@ == match outcome {
                Ok(SolveStatus::Stuck) => "Grid contains 50/50s"@,
                Err(_) => "Something went wrong with the solver"@,
                _ => old(self).status_message@,
            },
    {
        match outcome {
            Ok(SolveStatus::Stuck) => {
                self.status_message = String::from_str("Grid contains 50/50s");
            },
            Ok(SolveStatus::ProgressMade) => {},
            Ok(SolveStatus::Won) => {
                self.state = State::YouWon;
            },
            Err(_) => {
                self.status_message = String::from_str("Something went wrong with the solver");
            },
        }
    }

    /// The player toggles the flag on `position`, while the game goes on.
    pub fn flag(&mut self, position: Position)
        requires
            old(self).grid.wf(),
            old(self).state == State::JustCreated || old(self).state == State::Playing
                ==> old(self).grid.in_bounds(position),
        ensures
            final(self).status_message@ == Seq::<char>::empty(),
            final(self).generator == old(self).generator,
            final(self).state == old(self).state,
            final(self).grid.width == old(self).grid.width,
            final(self).grid.height == old(self).grid.height,
            final(self).grid.cells() == if old(self).state == State::JustCreated || old(self).state
                == State::Playing {
                flag_result(old(self).grid, position)
            } else {
                old(self).grid.cells()
            },
    {
        self.status_message = String::new();
        if self.state == State::JustCreated || self.state == State::Playing {
            self.grid.flag(position);
        }
    }
}

/// A board that keeps the contents of a generated one keeps its properties.
pub(crate) proof fn lemma_same_contents(generated: Grid<Cell>, g: Grid<Cell>, p: Position)
    requires
        generated.wf(),
        g.width == generated.width,
        g.height == generated.height,
        g.cells().len() == generated.cells().len(),
        forall|i: int|
            0 <= i < g.cells().len() ==> (#[trigger] g.cells()[i]).content
                == generated.cells()[i].content,
        is_consistent(generated),
        clear_around(generated, p),
    ensures
        g.wf(),
        is_consistent(g),
        clear_around(g, p),
{
    let w = g.width;
    let h = g.height;
    assert forall|q: Position| crate::grid::in_grid(w, h, q) implies #[trigger] crate::minesweeper_grid::mine_in(g)(q)
        == crate::minesweeper_grid::mine_in(generated)(q) by {
        crate::grid::lemma_index_in_range(w, h, q);
        assert(g.cells()[crate::grid::index_of(w, q)].content == generated.cells()[crate::grid::index_of(w, q)].content);
    }
    assert forall|i: int| 0 <= i < g.cells().len() implies (#[trigger] g.cells()[i]).content
        == crate::bit_grid::layout_content(
        w,
        h,
        crate::minesweeper_grid::mine_in(g),
        crate::grid::position_of(w, i),
    ) by {
        crate::grid::lemma_position_in_range(w, h, i);
        assert(generated.cells()[i].content == crate::bit_grid::layout_content(
            w,
            h,
            crate::minesweeper_grid::mine_in(generated),
            crate::grid::position_of(w, i),
        ));
        crate::minesweeper_grid::lemma_same_layout_content(
            w,
            h,
            crate::minesweeper_grid::mine_in(generated),
            crate::minesweeper_grid::mine_in(g),
            crate::grid::position_of(w, i),
        );
    }
    assert forall|q: Position|
        crate::grid::in_grid(w, h, q) && #[trigger] crate::grid::is_forbidden(w, h, p, q) implies g.at(
        q,
    ).content != CellContent::Mine by {
        assert(crate::minesweeper_grid::mine_in(g)(q) == crate::minesweeper_grid::mine_in(generated)(q));
    }
}

/// Law: a move that leaves a mine open loses the game, and the board then
/// shows every mine: each covered mine is revealed, flags stay where they
/// are, and no other cell and no content changes.
pub proof fn lemma_opened_mine_loses_and_shows_mines(played: Seq<Cell>, i: int)
    requires
        0 <= i < played.len(),
        played[i].content == CellContent::Mine,
        played[i].state == CellState::Revealed,
    ensures
        outcome_state(played) == State::GameOver,
        outcome_cells(played).len() == played.len(),
        forall|j: int|
            0 <= j < played.len() ==> {
                let after = #[trigger] outcome_cells(played)[j];
                &&& after.content == played[j].content
                &&& played[j].content == CellContent::Mine && played[j].state == CellState::Covered
                    ==> after.state == CellState::Revealed
                &&& played[j].state == CellState::Flagged ==> after.state == CellState::Flagged
                &&& played[j].state == CellState::Revealed ==> after.state == CellState::Revealed
                &&& played[j].content != CellContent::Mine ==> after == played[j]
            },
{
    let f = CellFilter::RevealedMine.pred();
    if count_cells(played, CellFilter::RevealedMine) == 0 {
        crate::grid::lemma_count_zero(played, f);
        assert(!f(played[i]));
    }
}

/// Law: a move that leaves no mine open changes nothing more than the play
/// itself, and the game is won exactly when no more cells are hidden than
/// there are mines.
pub proof fn lemma_safe_move_outcome(played: Seq<Cell>)
    requires
        forall|j: int|
            0 <= j < played.len() && (#[trigger] played[j]).content == CellContent::Mine
                ==> played[j].state != CellState::Revealed,
    ensures
        outcome_cells(played) == played,
        outcome_state(played) == if count_in(
            played,
            |c: Cell| c.state == CellState::Covered || c.state == CellState::Flagged,
        ) <= count_in(played, |c: Cell| c.content == CellContent::Mine) {
            State::YouWon
        } else {
            State::Playing
        },
{
    let f = CellFilter::RevealedMine.pred();
    assert forall|j: int| 0 <= j < played.len() implies !f(#[trigger] played[j]) by {}
    crate::minesweeper_grid::lemma_count_none(played, f);
    assert(CellFilter::CoveredOrFlagged.pred() =~= |c: Cell| c.state == CellState::Covered || c.state
        == CellState::Flagged);
    assert(CellFilter::Mine.pred() =~= |c: Cell| c.content == CellContent::Mine);
}

/// Law: the first cell that the player opens never loses the game. The board
/// of a new game has no open cell; the generator keeps every mine away from
/// the first click, so the reveal opens no mine.
pub proof fn lemma_first_reveal_never_loses(started: Grid<Cell>, before: Grid<Cell>, p: Position)
    requires
        before.wf(),
        before.in_bounds(p),
        forall|i: int|
            0 <= i < before.cells().len() ==> (#[trigger] before.cells()[i]).state
                != CellState::Revealed,
        is_fresh_start(started, before, p),
    ensures
        count_cells(play_result(started, p), CellFilter::RevealedMine) == 0,
        outcome_state(play_result(started, p)) != State::GameOver,
{
    let w = started.width;
    let h = started.height;
    crate::grid::lemma_index_in_range(w, h, p);
    assert(crate::grid::is_forbidden(w, h, p, p));
    let played = play_result(started, p);
    let f = CellFilter::RevealedMine.pred();
    if started.at(p).state == CellState::Covered {
        crate::flood::lemma_reveal_opens_no_mine(started, p);
        assert forall|i: int| 0 <= i < played.len() implies !f(#[trigger] played[i]) by {
            crate::grid::lemma_position_in_range(w, h, i);
            let q = crate::grid::position_of(w, i);
            if crate::flood::flood_reaches(started, p, q) {
                assert(started.at(q).content != CellContent::Mine);
            } else {
                assert(started.cells()[i].state == before.cells()[i].state);
            }
        }
    } else {
        let s = crate::grid::neighbor_seq(w, h, p);
        let m = crate::minesweeper_grid::mine_in(started);
        crate::grid::lemma_neighbors_in_grid(w, h, p);
        assert forall|j: int| 0 <= j < s.len() implies !m(#[trigger] s[j]) by {
            assert(crate::grid::in_grid(w, h, s[j]));
            assert(crate::grid::is_forbidden(w, h, p, s[j]));
        }
        crate::minesweeper_grid::lemma_count_none(s, m);
        assert(started.cells()[crate::grid::index_of(w, p)].content
            == crate::bit_grid::layout_content(w, h, m, crate::grid::position_of(w, crate::grid::index_of(w, p))));
        assert(started.at(p).content == CellContent::Empty);
        assert forall|i: int| 0 <= i < played.len() implies !f(#[trigger] played[i]) by {
            assert(started.cells()[i].state == before.cells()[i].state);
        }
    }
    crate::minesweeper_grid::lemma_count_none(played, f);
}

} // verus!
