use crabsweeper::{BitGrid, Grid, Position, cell_theme, format_cell, horizontal_line, pad_cell};

fn pos(x: usize, y: usize) -> Position {
    Position { x, y }
}

#[test]
fn index_is_row_major() {
    let g: Grid<u8> = Grid::new(3, 2, vec![0; 6]);
    assert_eq!(g.index(pos(0, 0)), 0);
    assert_eq!(g.index(pos(2, 0)), 2);
    assert_eq!(g.index(pos(1, 1)), 4);
}

#[test]
fn set_then_get() {
    let mut g: Grid<u8> = Grid::new(2, 2, vec![0; 4]);
    g.set(pos(1, 0), 7);
    assert_eq!(*g.get(pos(1, 0)), 7);
    assert_eq!(*g.get(pos(0, 1)), 0);
    *g.get_mut(pos(0, 1)) = 5;
    assert_eq!(g.iter(), &[0, 7, 5, 0]);
    assert_eq!(g.size(), 4);
}

#[test]
fn set_cells_replaces_all_cells() {
    let mut g: Grid<u8> = Grid::new(2, 1, vec![1, 2]);
    g.set_cells(vec![3, 4]);
    assert_eq!(g.iter(), &[3, 4]);
    for c in g.iter_mut() {
        *c += 1;
    }
    assert_eq!(g.iter(), &[4, 5]);
}

#[test]
fn neighbors_of_a_corner() {
    let g = BitGrid::empty(3, 3);
    assert_eq!(g.neighbor_positions(pos(0, 0)), vec![pos(0, 1), pos(1, 0), pos(1, 1)]);
}

#[test]
fn neighbors_of_the_centre_column_by_column() {
    let g = BitGrid::empty(3, 3);
    assert_eq!(
        g.neighbor_positions(pos(1, 1)),
        vec![pos(0, 0), pos(0, 1), pos(0, 2), pos(1, 0), pos(1, 2), pos(2, 0), pos(2, 1), pos(2, 2)]
    );
}

#[test]
fn neighbors_of_a_cell_on_a_single_row() {
    let g = BitGrid::empty(4, 1);
    assert_eq!(g.neighbor_positions(pos(3, 0)), vec![pos(2, 0)]);
}

#[test]
fn positions_in_storage_order() {
    let g = BitGrid::empty(2, 2);
    assert_eq!(g.iter_positions(), vec![pos(0, 0), pos(1, 0), pos(0, 1), pos(1, 1)]);
}

#[test]
fn eligible_positions_leave_out_the_first_click() {
    let g = BitGrid::empty(3, 3);
    assert!(g.generate_eligible_generator_positions(pos(1, 1)).is_empty());
    let row = BitGrid::empty(4, 1);
    assert_eq!(row.generate_eligible_generator_positions(pos(0, 0)), vec![pos(2, 0), pos(3, 0)]);
}

#[test]
fn horizontal_lines() {
    assert_eq!(horizontal_line(2, '┌', '┬', '┐'), "┌───┬───┐");
    assert_eq!(horizontal_line(1, '└', '┴', '┘'), "└───┘");
    assert_eq!(horizontal_line(0, '├', '┼', '┤'), "├┤");
}

#[test]
fn cells_are_padded_to_the_theme_width() {
    assert_eq!(cell_theme().width, 1);
    assert_eq!(format_cell("M"), "M");
    assert_eq!(format_cell(""), " ");
    assert_eq!(format_cell("🦀"), "🦀");
    assert_eq!(pad_cell("x", 0), " x");
    assert_eq!(pad_cell("x", 1), "x");
}

#[test]
fn draw_a_small_grid() {
    let g = BitGrid::empty(2, 2);
    let text = g.draw_grid(|p| format!("{}", p.x + 2 * p.y));
    assert_eq!(text, "┌───┬───┐\n│ 0 │ 1 │\n├───┼───┤\n│ 2 │ 3 │\n└───┴───┘");
}
