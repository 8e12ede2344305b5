use crabsweeper::{CellState, Deduction, MinesweeperGrid, Position, SolveStatus, Solver, SolverError};

fn pos(x: usize, y: usize) -> Position {
    Position { x, y }
}

fn corner_board() -> MinesweeperGrid {
    MinesweeperGrid::from_mine_positions(4, 3, &vec![pos(3, 0)])
}

#[test]
fn safe_deduction_opens_and_spreads() {
    let mut g = corner_board();
    let status = Solver::apply_deductions(&mut g, &vec![(pos(0, 0), Deduction::Safe)]);
    assert_eq!(status, SolveStatus::Won);
    assert_eq!(g.get(pos(1, 2)).state, CellState::Revealed);
}

#[test]
fn mine_deduction_flags() {
    let mut g = corner_board();
    let status = Solver::apply_deductions(&mut g, &vec![(pos(3, 0), Deduction::Mine)]);
    assert_eq!(status, SolveStatus::ProgressMade);
    assert_eq!(g.get(pos(3, 0)).state, CellState::Flagged);
}

#[test]
fn a_known_flag_is_no_progress() {
    let mut g = corner_board();
    g.flag(pos(3, 0));
    let status = Solver::apply_deductions(
        &mut g,
        &vec![(pos(3, 0), Deduction::Mine), (pos(0, 0), Deduction::Unknown)],
    );
    assert_eq!(status, SolveStatus::Stuck);
    assert_eq!(g.get(pos(3, 0)).state, CellState::Flagged);
}

#[test]
fn the_tag_of_other_cells_is_skipped() {
    let mut g = corner_board();
    let status = Solver::apply_deductions(&mut g, &vec![(pos(1000, 1000), Deduction::Safe)]);
    assert_eq!(status, SolveStatus::Stuck);
    assert_eq!(g.count_covered_or_flagged(), 12);
}

#[test]
fn loop_control_of_a_full_solve() {
    assert!(matches!(Solver::after_step(0, Ok(SolveStatus::Stuck)), Some(Ok(SolveStatus::Stuck))));
    assert!(matches!(Solver::after_step(3, Ok(SolveStatus::Won)), Some(Ok(SolveStatus::Won))));
    assert!(Solver::after_step(0, Ok(SolveStatus::ProgressMade)).is_none());
    assert!(Solver::after_step(98, Ok(SolveStatus::ProgressMade)).is_none());
    match Solver::after_step(99, Ok(SolveStatus::ProgressMade)) {
        Some(Err(SolverError(message))) => assert_eq!(message, "Solver took too many iterations"),
        _ => panic!("expected the iteration limit"),
    }
    match Solver::after_step(5, Err(SolverError("inconsistent"))) {
        Some(Err(SolverError(message))) => assert_eq!(message, "inconsistent"),
        _ => panic!("expected the error to pass through"),
    }
}

#[test]
fn rules_of_a_single_open_number() {
    let mut g = corner_board();
    g.uncover(pos(2, 0));
    let rules = Solver::rules_for(&g);
    assert_eq!(rules, vec![(1, vec![pos(1, 0), pos(1, 1), pos(2, 1), pos(3, 0), pos(3, 1)])]);
}

#[test]
fn rules_in_storage_order_with_flags_still_hidden() {
    let mut g = corner_board();
    g.uncover(pos(0, 0));
    g.flag(pos(3, 0));
    let rules = Solver::rules_for(&g);
    assert_eq!(
        rules,
        vec![(1, vec![pos(3, 0)]), (1, vec![pos(3, 0)]), (1, vec![pos(3, 0)])]
    );
    assert!(Solver::rules_for(&corner_board()).is_empty());
}
