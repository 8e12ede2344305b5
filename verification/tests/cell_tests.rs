use crabsweeper::{Cell, CellContent, CellState};

fn cell(content: CellContent, state: CellState) -> Cell {
    Cell { content, state }
}

#[test]
fn covered_cell_can_be_revealed() {
    assert!(cell(CellContent::Empty, CellState::Covered).can_be_revealed());
    assert!(!cell(CellContent::Empty, CellState::Revealed).can_be_revealed());
    assert!(!cell(CellContent::Mine, CellState::Flagged).can_be_revealed());
}

#[test]
fn only_open_empty_cells_propagate() {
    assert!(cell(CellContent::Empty, CellState::Revealed).should_propagate());
    assert!(!cell(CellContent::Empty, CellState::Covered).should_propagate());
    assert!(!cell(CellContent::Number(2), CellState::Revealed).should_propagate());
    assert!(!cell(CellContent::Empty, CellState::Flagged).should_propagate());
}

#[test]
fn flagged_cell_is_flagged() {
    assert!(cell(CellContent::Mine, CellState::Flagged).is_flagged());
    assert!(!cell(CellContent::Mine, CellState::Covered).is_flagged());
}

#[test]
fn uncover_opens_covered_cells_only() {
    let mut c = cell(CellContent::Number(3), CellState::Covered);
    c.uncover();
    assert_eq!(c, cell(CellContent::Number(3), CellState::Revealed));
    let mut f = cell(CellContent::Mine, CellState::Flagged);
    f.uncover();
    assert_eq!(f, cell(CellContent::Mine, CellState::Flagged));
}

#[test]
fn minesweeprs_chars() {
    assert_eq!(cell(CellContent::Mine, CellState::Flagged).get_minesweeprs_char(), '*');
    assert_eq!(cell(CellContent::Empty, CellState::Covered).get_minesweeprs_char(), 'x');
    assert_eq!(cell(CellContent::Empty, CellState::Revealed).get_minesweeprs_char(), '0');
    assert_eq!(cell(CellContent::Number(7), CellState::Revealed).get_minesweeprs_char(), '7');
    assert_eq!(cell(CellContent::Mine, CellState::Revealed).get_minesweeprs_char(), '*');
}

#[test]
fn cell_from_content_is_covered() {
    let c: Cell = Cell::from(CellContent::Number(1));
    assert_eq!(c, cell(CellContent::Number(1), CellState::Covered));
    let d: Cell = CellContent::Mine.into();
    assert_eq!(d.state, CellState::Covered);
}

#[test]
fn sprite_indices() {
    let covered = cell(CellContent::Number(3), CellState::Covered);
    assert_eq!(covered.sprite_index(false), 12);
    assert_eq!(covered.sprite_index(true), 0);
    assert_eq!(cell(CellContent::Number(3), CellState::Revealed).sprite_index(true), 3);
    assert_eq!(cell(CellContent::Empty, CellState::Revealed).sprite_index(false), 0);
    assert_eq!(cell(CellContent::Mine, CellState::Revealed).sprite_index(false), 10);
    assert_eq!(cell(CellContent::Mine, CellState::Flagged).sprite_index(true), 11);
}
