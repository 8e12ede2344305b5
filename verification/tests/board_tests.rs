use crabsweeper::{BitGrid, Cell, CellContent, CellState, MinesweeperGrid, Position};

fn pos(x: usize, y: usize) -> Position {
    Position { x, y }
}

/// A 4 by 3 board with one mine in the top right corner.
fn corner_board() -> MinesweeperGrid {
    MinesweeperGrid::from_mine_positions(4, 3, &vec![pos(3, 0)])
}

fn content(g: &MinesweeperGrid, x: usize, y: usize) -> CellContent {
    g.get(pos(x, y)).content
}

fn state(g: &MinesweeperGrid, x: usize, y: usize) -> CellState {
    g.get(pos(x, y)).state
}

#[test]
fn bit_grid_counts() {
    let mut b = BitGrid::empty(3, 3);
    assert_eq!(b.count_bits(), 0);
    b.set(pos(0, 0), true);
    b.set(pos(2, 2), true);
    assert_eq!(b.count_bits(), 2);
    assert_eq!(b.count_adjacent_bits(pos(1, 1)), 2);
    assert_eq!(b.count_adjacent_bits(pos(0, 0)), 0);
    assert_eq!(b.get_cell_content(pos(0, 0)), CellContent::Mine);
    assert_eq!(b.get_cell_content(pos(1, 0)), CellContent::Number(1));
    assert_eq!(b.get_cell_content(pos(1, 1)), CellContent::Number(2));
}

#[test]
fn eight_mines_around_a_cell() {
    let mut b = BitGrid::empty(3, 3);
    for p in b.iter_positions() {
        if p != pos(1, 1) {
            b.set(p, true);
        }
    }
    assert_eq!(b.get_cell_content(pos(1, 1)), CellContent::Number(8));
}

#[test]
fn board_from_bit_grid_follows_the_marks() {
    let mut b = BitGrid::empty(2, 2);
    b.set(pos(1, 1), true);
    let g = MinesweeperGrid::from_bit_grid(&b);
    assert_eq!(g.count_mines(), b.count_bits());
    assert_eq!(content(&g, 1, 1), CellContent::Mine);
    assert_eq!(content(&g, 0, 0), CellContent::Number(1));
    assert!(g.iter().iter().all(|c| c.state == CellState::Covered));
}

#[test]
fn empty_board_has_no_mines() {
    let g = MinesweeperGrid::empty(3, 2);
    assert_eq!(g.size(), 6);
    assert_eq!(g.count_mines(), 0);
    assert!(g.iter().iter().all(|c| *c == Cell { content: CellContent::Empty, state: CellState::Covered }));
}

#[test]
fn from_mine_positions_numbers() {
    let g = corner_board();
    assert_eq!(content(&g, 3, 0), CellContent::Mine);
    assert_eq!(content(&g, 2, 0), CellContent::Number(1));
    assert_eq!(content(&g, 2, 1), CellContent::Number(1));
    assert_eq!(content(&g, 3, 1), CellContent::Number(1));
    assert_eq!(content(&g, 0, 0), CellContent::Empty);
    assert_eq!(g.count_mines(), 1);
}

#[test]
fn repeated_mine_positions_count_once() {
    let g = MinesweeperGrid::from_mine_positions(3, 3, &vec![pos(0, 0), pos(0, 0)]);
    assert_eq!(g.count_mines(), 1);
}

#[test]
fn uncover_spreads_over_empty_cells() {
    let mut g = corner_board();
    g.uncover(pos(0, 0));
    for p in g.iter_positions() {
        let expected = if p == pos(3, 0) { CellState::Covered } else { CellState::Revealed };
        assert_eq!(g.get(p).state, expected);
    }
    assert!(g.is_solved());
    assert_eq!(g.count_revealed_mines(), 0);
}

#[test]
fn uncover_leaves_nothing_covered_next_to_an_open_empty_cell() {
    let mut g = MinesweeperGrid::from_mine_positions(7, 6, &vec![pos(6, 0), pos(3, 3), pos(0, 5)]);
    g.flag(pos(1, 1));
    g.uncover(pos(0, 0));
    for p in g.iter_positions() {
        let cell = g.get(p);
        if cell.state == CellState::Revealed && cell.content == CellContent::Empty {
            for n in g.neighbor_positions(p) {
                assert_ne!(g.get(n).state, CellState::Covered);
            }
        }
    }
    assert_eq!(state(&g, 1, 1), CellState::Flagged);
    assert_eq!(g.count_revealed_mines(), 0);
}

#[test]
fn uncover_on_a_number_opens_that_cell_only() {
    let mut g = corner_board();
    g.uncover(pos(2, 0));
    assert_eq!(state(&g, 2, 0), CellState::Revealed);
    assert_eq!(g.count_covered_or_flagged(), 11);
}

#[test]
fn uncover_leaves_flags_alone() {
    let mut g = corner_board();
    g.flag(pos(0, 2));
    g.uncover(pos(0, 0));
    assert_eq!(state(&g, 0, 2), CellState::Flagged);
    assert_eq!(state(&g, 1, 2), CellState::Revealed);
    g.uncover(pos(0, 2));
    assert_eq!(state(&g, 0, 2), CellState::Flagged);
}

#[test]
fn uncovering_twice_is_uncovering_once() {
    let mut once = corner_board();
    once.flag(pos(1, 2));
    once.uncover(pos(0, 1));
    let mut twice = corner_board();
    twice.flag(pos(1, 2));
    twice.uncover(pos(0, 1));
    twice.uncover(pos(0, 1));
    assert_eq!(once.iter(), twice.iter());
}

#[test]
fn flagging_twice_restores_the_cell() {
    let mut g = corner_board();
    g.flag(pos(3, 0));
    assert_eq!(state(&g, 3, 0), CellState::Flagged);
    assert_eq!(g.count_flags(), 1);
    g.flag(pos(3, 0));
    assert_eq!(state(&g, 3, 0), CellState::Covered);
    assert_eq!(g.iter(), corner_board().iter());
}

#[test]
fn flag_does_not_touch_an_open_cell() {
    let mut g = corner_board();
    g.uncover(pos(2, 1));
    g.flag(pos(2, 1));
    assert_eq!(state(&g, 2, 1), CellState::Revealed);
}

#[test]
fn chord_opens_the_neighbours_of_a_satisfied_number() {
    let mut g = corner_board();
    g.uncover(pos(2, 0));
    g.flag(pos(3, 0));
    g.chord(pos(2, 0));
    assert_eq!(state(&g, 1, 0), CellState::Revealed);
    assert_eq!(state(&g, 1, 1), CellState::Revealed);
    assert_eq!(state(&g, 2, 1), CellState::Revealed);
    assert_eq!(state(&g, 3, 1), CellState::Revealed);
    assert_eq!(state(&g, 3, 0), CellState::Flagged);
    // no spreading from the opened empty cells
    assert_eq!(state(&g, 0, 0), CellState::Covered);
}

#[test]
fn chord_without_enough_flags_does_nothing() {
    let mut g = corner_board();
    g.uncover(pos(2, 0));
    let before = g.clone();
    g.chord(pos(2, 0));
    assert_eq!(g.iter(), before.iter());
}

#[test]
fn chord_on_an_empty_cell_does_nothing() {
    let mut g = corner_board();
    let before = g.clone();
    g.chord(pos(0, 0));
    assert_eq!(g.iter(), before.iter());
}

#[test]
fn counts_of_cells() {
    let mut g = corner_board();
    g.flag(pos(0, 0));
    g.uncover(pos(3, 0));
    assert_eq!(g.count_mines(), 1);
    assert_eq!(g.count_flags(), 1);
    assert_eq!(g.count_revealed_mines(), 1);
    assert_eq!(g.count_unflagged_mines(), 1);
    assert_eq!(g.count_covered_or_flagged(), 11);
    assert_eq!(g.count_remaining_flags(), 0);
}

#[test]
fn remaining_flags_can_go_negative() {
    let mut g = corner_board();
    g.flag(pos(0, 0));
    g.flag(pos(1, 0));
    assert_eq!(g.count_remaining_flags(), -1);
    g.flag(pos(3, 0));
    assert_eq!(g.count_unflagged_mines(), 0);
}

#[test]
fn update_content_keeps_what_the_player_sees() {
    let mut g = MinesweeperGrid::empty(4, 3);
    g.flag(pos(1, 1));
    g.update_content(corner_board());
    assert_eq!(content(&g, 3, 0), CellContent::Mine);
    assert_eq!(state(&g, 1, 1), CellState::Flagged);
    assert_eq!(state(&g, 3, 0), CellState::Covered);
}

#[test]
fn update_content_keeps_the_shorter_length() {
    let mut g = MinesweeperGrid::empty(2, 2);
    g.update_content(MinesweeperGrid::empty(1, 1));
    assert_eq!(g.size(), 1);
}

#[test]
fn reveal_mines_opens_covered_mines_only() {
    let mut g = MinesweeperGrid::from_mine_positions(3, 1, &vec![pos(0, 0), pos(2, 0)]);
    g.flag(pos(2, 0));
    g.reveal_mines();
    assert_eq!(state(&g, 0, 0), CellState::Revealed);
    assert_eq!(state(&g, 1, 0), CellState::Covered);
    assert_eq!(state(&g, 2, 0), CellState::Flagged);
}

#[test]
fn solved_needs_every_safe_cell_open() {
    let mut g = corner_board();
    assert!(!g.is_solved());
    g.uncover(pos(0, 0));
    assert!(g.is_solved());
}

#[test]
fn minesweeprs_text_is_column_by_column() {
    let mut g = MinesweeperGrid::from_mine_positions(2, 3, &vec![pos(1, 2)]);
    g.uncover(pos(0, 0));
    g.flag(pos(1, 2));
    assert_eq!(g.to_minesweeprs_string(), "01x\n01*\n");
    let covered = MinesweeperGrid::empty(2, 2);
    assert_eq!(covered.to_minesweeprs_string(), "xx\nxx\n");
}

#[test]
fn display_text_of_a_bit_grid() {
    let mut b = BitGrid::empty(1, 1);
    b.set(pos(0, 0), true);
    assert_eq!(b.to_display_string(), "┌───┐\n│ M │\n└───┘\n\nWidth: 1\nHeight: 1\nMines: 1\n");
}

#[test]
fn display_text_of_a_board() {
    let mut g = MinesweeperGrid::from_mine_positions(2, 1, &vec![pos(1, 0)]);
    g.uncover(pos(0, 0));
    assert_eq!(
        g.to_display_string(),
        "┌───┬───┐\n│ 1 │ # │\n└───┴───┘\n\nWidth: 2\nHeight: 1\nMines: 1\nFlags: 0\n"
    );
    g.flag(pos(1, 0));
    assert!(g.to_display_string().contains("│ 1 │ F │"));
    assert!(g.to_display_string().ends_with("Flags: 1\n"));
}
