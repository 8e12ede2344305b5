use vstd::prelude::*;
use crate::cell::{Cell, CellContent, CellState};
use crate::flood::flood_result;
use crate::grid::{
    Grid, Position, in_grid, neighbor_seq, position_of, lemma_neighbors_in_grid,
    lemma_position_in_range,
};
use crate::minesweeper_grid::{MinesweeperGrid, flag_result, solved};

verus! {

/// The column of the tag that the solver gives to all cells that no rule
/// mentions.
pub const OTHER_TAG_X: usize = 1000;

/// The row of the tag that the solver gives to all cells that no rule
/// mentions.
pub const OTHER_TAG_Y: usize = 1000;

/// The most rounds of deduction that a full solve runs.
pub const MAX_SOLVING_ITERATIONS: usize = 100;

/// How a round of deduction ended.
#[derive(Clone, Copy, Debug, PartialEq, Eq, Structural)]
pub enum SolveStatus {
    Stuck,
    ProgressMade,
    Won,
}

/// Why the solver gave up.
#[derive(Clone, Copy, Debug)]
pub struct SolverError(pub &'static str);

/// What the solver found out about one cell.
#[derive(Clone, Copy, Debug, PartialEq, Eq, Structural)]
pub enum Deduction {
    /// The cell holds no mine.
    Safe,
    /// The cell holds a mine.
    Mine,
    /// The cell may or may not hold a mine.
    Unknown,
}

/// Plays the deductions of a probabilistic minesweeper solver on a board.
pub struct Solver;

/// Whether `p` is the tag of the cells that no rule mentions.
pub open spec fn is_other_tag(p: Position) -> bool {
    p.x == OTHER_TAG_X && p.y == OTHER_TAG_Y
}

/// Whether the deduction `d` about `p` makes a move on board `g`: a safe cell
/// is opened, a mine that is not yet flagged is flagged.
pub open spec fn deduction_moves(g: Grid<Cell>, p: Position, d: Deduction) -> bool {
    &&& !is_other_tag(p)
    &&& (d == Deduction::Safe || (d == Deduction::Mine && g.at(p).state != CellState::Flagged))
}

/// `after` is `before` once the deduction `d` about `p` has been played.
pub open spec fn deduction_step(before: Grid<Cell>, after: Grid<Cell>, p: Position, d: Deduction) -> bool {
    &&& after.width == before.width
    &&& after.height == before.height
    &&& after.cells() == if !deduction_moves(before, p, d) {
        before.cells()
    } else if d == Deduction::Safe {
        flood_result(before, p)
    } else {
        flag_result(before, p)
    }
}

/// `boards` runs through the board as the deductions `ds` are played one by
/// one: `boards[k + 1]` is `boards[k]` after `ds[k]`.
pub open spec fn is_deduction_trace(boards: Seq<Grid<Cell>>, ds: Seq<(Position, Deduction)>) -> bool {
    &&& boards.len() == ds.len() + 1
    &&& forall|k: int|
        0 <= k < ds.len() ==> #[trigger] deduction_step(boards[k], boards[k + 1], ds[k].0, ds[k].1)
}

/// A cell that the player has not opened: covered or flagged.
pub open spec fn is_hidden(c: Cell) -> bool {
    c.state == CellState::Covered || c.state == CellState::Flagged
}

/// The positions of `s` whose cells on `g` are hidden, in the order of `s`.
pub open spec fn hidden_among(g: Grid<Cell>, s: Seq<Position>) -> Seq<Position>
    decreases s.len(),
{
    if s.len() == 0 {
        Seq::empty()
    } else {
        let prev = hidden_among(g, s.drop_last());
        if is_hidden(g.at(s.last())) {
            prev.push(s.last())
        } else {
            prev
        }
    }
}

/// The rule that the cell at `p` gives, if it gives one: a revealed number
/// with hidden neighbours says that exactly that many of them are mines.
pub open spec fn rule_at(g: Grid<Cell>, p: Position) -> Seq<(usize, Seq<Position>)> {
    let c = g.at(p);
    let hidden = hidden_among(g, neighbor_seq(g.width, g.height, p));
    if c.state == CellState::Revealed && c.content is Number && hidden.len() > 0 {
        seq![(c.content->Number_0 as usize, hidden)]
    } else {
        Seq::empty()
    }
}

/// The rules that the first `k` stored cells of `g` give, in storage order.
pub open spec fn board_rules(g: Grid<Cell>, k: int) -> Seq<(usize, Seq<Position>)>
    decreases k,
{
    if k <= 0 {
        Seq::empty()
    } else {
        board_rules(g, k - 1) + rule_at(g, position_of(g.width, k - 1))
    }
}

/// Law: the solver's verdict that a cell of the board is safe is always
/// played: the cell is opened (the reveal spreads as usual), so the round
/// makes progress.
pub proof fn lemma_safe_deduction_moves(g: Grid<Cell>, p: Position)
    requires
        !(p.x == OTHER_TAG_X && p.y == OTHER_TAG_Y),
    ensures
        deduction_moves(g, p, Deduction::Safe),
        forall|after: Grid<Cell>|
            #[trigger] deduction_step(g, after, p, Deduction::Safe) ==> after.cells() == flood_result(
                g,
                p,
            ),
{
}

/// Law: the verdict that a cell without a flag holds a mine is always
/// played: the cell gets a flag. A verdict on a cell that already carries a
/// flag, or on the tag of the unmentioned cells, changes nothing.
pub proof fn lemma_mine_deduction(g: Grid<Cell>, p: Position)
    ensures
        !(p.x == OTHER_TAG_X && p.y == OTHER_TAG_Y) && g.at(p).state != CellState::Flagged
            ==> deduction_moves(g, p, Deduction::Mine),
        forall|after: Grid<Cell>|
            #[trigger] deduction_step(g, after, p, Deduction::Mine) ==> after.cells() == if !(p.x
                == OTHER_TAG_X && p.y == OTHER_TAG_Y) && g.at(p).state != CellState::Flagged {
                flag_result(g, p)
            } else {
                g.cells()
            },
        forall|after: Grid<Cell>|
            #[trigger] deduction_step(g, after, p, Deduction::Unknown) ==> after.cells() == g.cells(),
{
}

impl Solver {
    /// The rules that the open numbers of `grid` give a solver, one per
    /// revealed numbered cell with hidden neighbours, in storage order: the
    /// cell's number and its covered or flagged neighbours.
    pub fn rules_for(grid: &MinesweeperGrid) -> (r: Vec<(usize, Vec<Position>)>)
        requires
            grid.wf(),
        ensures
            r@.len() == board_rules(*grid, grid.cells().len() as int).len(),
            forall|i: int|
                0 <= i < r@.len() ==> {
                    let rule = #[trigger] board_rules(*grid, grid.cells().len() as int)[i];
                    &&& r@[i].0 == rule.0
                    &&& r@[i].1@ == rule.1
                },
    {
        let w = grid.width;
        let h = grid.height;
        let n = grid.size();
        let mut rules: Vec<(usize, Vec<Position>)> = Vec::new();
        let mut i: usize = 0;
        while i < n
            invariant
                grid.wf(),
                w == grid.width,
                h == grid.height,
                n == grid.cells().len(),
                i <= n,
                rules@.len() == board_rules(*grid, i as int).len(),
                forall|k: int|
                    0 <= k < rules@.len() ==> {
                        let rule = #[trigger] board_rules(*grid, i as int)[k];
                        &&& rules@[k].0 == rule.0
                        &&& rules@[k].1@ == rule.1
                    },
            decreases n - i,
        {
            proof {
                lemma_position_in_range(w, h, i as int);
            }
            let position = Position { x: i % w, y: i / w };
            let cell = *grid.get(position);
            let ghost before = rules@;
            if cell.state == CellState::Revealed {
                if let CellContent::Number(number) = cell.content {
                    let neighbors = grid.neighbor_positions(position);
                    proof {
                        lemma_neighbors_in_grid(w, h, position);
                    }
                    let mut hidden: Vec<Position> = Vec::new();
                    let mut j: usize = 0;
                    while j < neighbors.len()
                        invariant
                            grid.wf(),
                            w == grid.width,
                            h == grid.height,
                            neighbors@ == neighbor_seq(w, h, position),
                            forall|k: int|
                                0 <= k < neighbors@.len() ==> #[trigger] in_grid(
                                    w,
                                    h,
                                    neighbors@[k],
                                ),
                            j <= neighbors@.len(),
                            hidden@ == hidden_among(*grid, neighbors@.take(j as int)),
                        decreases neighbors@.len() - j,
                    {
                        let np = neighbors[j];
                        assert(in_grid(w, h, neighbors@[j as int]));
                        let state = grid.get(np).state;
                        assert(neighbors@.take(j as int + 1).drop_last() =~= neighbors@.take(j as int));
                        if state == CellState::Covered || state == CellState::Flagged {
                            hidden.push(np);
                        }
                        j = j + 1;
                    }
                    assert(neighbors@.take(neighbors@.len() as int) =~= neighbors@);
                    if hidden.len() > 0 {
                        rules.push((number as usize, hidden));
                    }
                }
            }
            proof {
                let next = board_rules(*grid, i as int + 1);
                assert(next == board_rules(*grid, i as int) + rule_at(*grid, position_of(w, i as int)));
                assert forall|k: int| 0 <= k < rules@.len() implies {
                    let rule = #[trigger] next[k];
                    &&& rules@[k].0 == rule.0
                    &&& rules@[k].1@ == rule.1
                } by {
                    if k < before.len() {
                        assert(next[k] == board_rules(*grid, i as int)[k]);
                    }
                }
            }
            i = i + 1;
        }
        rules
    }


    /// Plays one round of deductions: every cell found safe is opened (the
    /// reveal spreads as usual), every mine found and not yet flagged gets a
    /// flag; the tag of the unmentioned cells is skipped. Reports `Won` once
    /// the board is solved, `ProgressMade` when a move was made, `Stuck`
    /// otherwise.
    pub fn apply_deductions(grid: &mut MinesweeperGrid, deductions: &Vec<(Position, Deduction)>) -> (r:
        SolveStatus)
        requires
            old(grid).wf(),
            forall|k: int|
                0 <= k < deductions@.len() && !is_other_tag(#[trigger] deductions@[k].0) ==> in_grid(
                    old(grid).width,
                    old(grid).height,
                    deductions@[k].0,
                ),
        ensures
            final(grid).wf(),
            final(grid).width == old(grid).width,
            final(grid).height == old(grid).height,
            exists|boards: Seq<Grid<Cell>>|
                {
                    &&& #[trigger] is_deduction_trace(boards, deductions@)
                    &&& boards[0] == *old(grid)
                    &&& boards.last().cells() == final(grid).cells()
                    &&& r == if solved(final(grid).cells()) {
                        SolveStatus::Won
                    } else if exists|k: int|
                        0 <= k < deductions@.len() && #[trigger] deduction_moves(
                            boards[k],
                            deductions@[k].0,
                            deductions@[k].1,
                        ) {
                        SolveStatus::ProgressMade
                    } else {
                        SolveStatus::Stuck
                    }
                },
            (exists|k: int|
                0 <= k < deductions@.len() && #[trigger] deductions@[k].1 == Deduction::Safe && !(
                deductions@[k].0.x == OTHER_TAG_X && deductions@[k].0.y == OTHER_TAG_Y)) ==> r
                != SolveStatus::Stuck,
    {
        let ghost mut boards: Seq<Grid<Cell>> = seq![*grid];
        let mut is_stuck = true;
        let mut k: usize = 0;
        while k < deductions.len()
            invariant
                grid.wf(),
                grid.width == old(grid).width,
                grid.height == old(grid).height,
                forall|j: int|
                    0 <= j < deductions@.len() && !is_other_tag(#[trigger] deductions@[j].0) ==> in_grid(
                        old(grid).width,
                        old(grid).height,
                        deductions@[j].0,
                    ),
                k <= deductions@.len(),
                boards.len() == k + 1,
                boards[0] == *old(grid),
                boards.last() == *grid,
                forall|j: int|
                    0 <= j < k ==> #[trigger] deduction_step(
                        boards[j],
                        boards[j + 1],
                        deductions@[j].0,
                        deductions@[j].1,
                    ),
                is_stuck == !exists|j: int|
                    0 <= j < k && #[trigger] deduction_moves(
                        boards[j],
                        deductions@[j].0,
                        deductions@[j].1,
                    ),
            decreases deductions@.len() - k,
        {
            let (position, deduction) = deductions[k];
            let ghost before = *grid;
            let ghost moved = deduction_moves(before, position, deduction);
            if !(position.x == OTHER_TAG_X && position.y == OTHER_TAG_Y) {
                assert(in_grid(old(grid).width, old(grid).height, deductions@[k as int].0));
                proof {
                    crate::grid::lemma_index_in_range(grid.width, grid.height, position);
                }
                if deduction == Deduction::Safe {
                    grid.uncover(position);
                    assert(grid.cells().len() == before.cells().len());
                    is_stuck = false;
                }
                if deduction == Deduction::Mine && !grid.get(position).is_flagged() {
                    grid.flag(position);
                    is_stuck = false;
                }
            }
            proof {
                let old_boards = boards;
                boards = boards.push(*grid);
                assert(deduction_step(boards[k as int], boards[k + 1], deductions@[k as int].0, deductions@[k as int].1));
                assert forall|j: int|
                    0 <= j < k + 1 implies #[trigger] deduction_step(
                        boards[j],
                        boards[j + 1],
                        deductions@[j].0,
                        deductions@[j].1,
                    ) by {
                    if j < k {
                        assert(boards[j] == old_boards[j] && boards[j + 1] == old_boards[j + 1]);
                    }
                }
                if moved {
                    assert(deduction_moves(boards[k as int], deductions@[k as int].0, deductions@[k as int].1));
                }
                if exists|j: int|
                    0 <= j < k + 1 && #[trigger] deduction_moves(
                        boards[j],
                        deductions@[j].0,
                        deductions@[j].1,
                    ) {
                    let j = choose|j: int|
                        0 <= j < k + 1 && #[trigger] deduction_moves(
                            boards[j],
                            deductions@[j].0,
                            deductions@[j].1,
                        );
                    if j < k {
                        assert(boards[j] == old_boards[j]);
                    }
                }
                if exists|j: int|
                    0 <= j < k && #[trigger] deduction_moves(
                        old_boards[j],
                        deductions@[j].0,
                        deductions@[j].1,
                    ) {
                    let j = choose|j: int|
                        0 <= j < k && #[trigger] deduction_moves(
                            old_boards[j],
                            deductions@[j].0,
                            deductions@[j].1,
                        );
                    assert(boards[j] == old_boards[j]);
                    assert(deduction_moves(boards[j], deductions@[j].0, deductions@[j].1));
                }
            }
            k = k + 1;
        }
        assert(is_deduction_trace(boards, deductions@));
        proof {
            if exists|k: int|
                0 <= k < deductions@.len() && #[trigger] deductions@[k].1 == Deduction::Safe && !(
                deductions@[k].0.x == OTHER_TAG_X && deductions@[k].0.y == OTHER_TAG_Y) {
                let k = choose|k: int|
                    0 <= k < deductions@.len() && #[trigger] deductions@[k].1 == Deduction::Safe
                        && !(deductions@[k].0.x == OTHER_TAG_X && deductions@[k].0.y == OTHER_TAG_Y);
                lemma_safe_deduction_moves(boards[k], deductions@[k].0);
                assert(deduction_moves(boards[k], deductions@[k].0, deductions@[k].1));
            }
        }
        if grid.is_solved() {
            SolveStatus::Won
        } else if is_stuck {
            SolveStatus::Stuck
        } else {
            SolveStatus::ProgressMade
        }
    }

    /// What a full solve does after its round number `steps_taken` (counting
    /// from 0) ended with `outcome`: `None` to run another round, or the
    /// result of the solve. A solve stops when it is stuck, has won or failed,
    /// and fails once `MAX_SOLVING_ITERATIONS` rounds made progress without
    /// winning.
    pub fn after_step(steps_taken: usize, outcome: Result<SolveStatus, SolverError>) -> (r: Option<
        Result<SolveStatus, SolverError>,
    >)
        requires
            steps_taken < MAX_SOLVING_ITERATIONS,
        ensures
            r == match outcome {
                Ok(SolveStatus::ProgressMade) => if steps_taken + 1 < MAX_SOLVING_ITERATIONS {
                    None
                } else {
                    Some(Err(SolverError("Solver took too many iterations")))
                },
                _ => Some(outcome),
            },
    {
        match outcome {
            Ok(SolveStatus::Stuck) => Some(Ok(SolveStatus::Stuck)),
            Ok(SolveStatus::ProgressMade) => {
                if steps_taken + 1 < MAX_SOLVING_ITERATIONS {
                    None
                } else {
                    Some(Err(SolverError("Solver took too many iterations")))
                }
            },
            Ok(SolveStatus::Won) => Some(Ok(SolveStatus::Won)),
            Err(err) => Some(Err(err)),
        }
    }
}

} // verus!
