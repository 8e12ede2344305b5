use crabsweeper::{
    CellContent, CellState, Game, Generator, MinesweeperGame, MinesweeperGrid, Position,
    RandomGenerator, SolveStatus, SolverError, State,
};

fn pos(x: usize, y: usize) -> Position {
    Position { x, y }
}

/// Lays the same mines whatever the first click.
struct FixedMines(Vec<Position>);

impl Generator for FixedMines {
    fn generate(&self, width: usize, height: usize, _pressed_position: Position) -> MinesweeperGrid {
        MinesweeperGrid::from_mine_positions(width, height, &self.0)
    }

    fn name(&self) -> &'static str {
        "Fixed"
    }
}

fn corner_game() -> MinesweeperGame<FixedMines> {
    MinesweeperGame::new(4, 3, FixedMines(vec![pos(3, 0)]))
}

#[test]
fn new_game_is_covered_and_empty() {
    let game = corner_game();
    assert!(game.state == State::JustCreated);
    assert_eq!(game.grid.size(), 12);
    assert_eq!(game.grid.count_mines(), 0);
    assert!(game.status_message.is_empty());
}

#[test]
fn first_reveal_lays_the_mines_and_plays() {
    let mut game = corner_game();
    game.uncover(pos(0, 2));
    assert_eq!(game.grid.count_mines(), 1);
    assert!(game.state == State::YouWon);
}

#[test]
fn opening_a_mine_loses_and_shows_all_mines() {
    let mut game = MinesweeperGame::new(4, 3, FixedMines(vec![pos(3, 0), pos(3, 2)]));
    game.uncover(pos(0, 0));
    assert!(game.state == State::Playing);
    game.flag(pos(3, 2));
    game.uncover(pos(3, 0));
    assert!(game.state == State::GameOver);
    assert_eq!(game.grid.get(pos(3, 0)).state, CellState::Revealed);
    assert_eq!(game.grid.get(pos(3, 2)).state, CellState::Flagged);
}

#[test]
fn a_finished_game_ignores_moves() {
    let mut game = MinesweeperGame::new(4, 3, FixedMines(vec![pos(3, 0), pos(3, 2)]));
    game.uncover(pos(0, 0));
    game.uncover(pos(3, 0));
    assert!(game.state == State::GameOver);
    let before = game.grid.clone();
    game.flag(pos(3, 2));
    game.uncover(pos(3, 2));
    assert!(game.state == State::GameOver);
    assert_eq!(game.grid.iter(), before.iter());
}

#[test]
fn flags_before_the_first_reveal_stay() {
    let mut game = corner_game();
    game.flag(pos(3, 2));
    assert!(game.state == State::JustCreated);
    game.uncover(pos(0, 0));
    assert_eq!(game.grid.get(pos(3, 2)).state, CellState::Flagged);
    assert!(game.state == State::Playing);
}

#[test]
fn chord_through_the_game() {
    let mut game = MinesweeperGame::new(4, 3, FixedMines(vec![pos(3, 0), pos(3, 2)]));
    game.uncover(pos(2, 0));
    assert_eq!(game.grid.get(pos(2, 0)).content, CellContent::Number(1));
    game.flag(pos(3, 0));
    game.uncover(pos(2, 0));
    assert_eq!(game.grid.get(pos(3, 1)).state, CellState::Revealed);
    assert!(game.state == State::Playing);
}

#[test]
fn first_reveal_never_loses_with_random_boards() {
    for seed in 0..40u64 {
        let mut game = MinesweeperGame::new(9, 9, RandomGenerator { num_mines: 10, seed });
        let first = pos((seed % 9) as usize, (seed / 9 % 9) as usize);
        game.uncover(first);
        assert!(game.state != State::GameOver);
        assert_eq!(game.grid.count_revealed_mines(), 0);
        assert_eq!(game.grid.get(first).content, CellContent::Empty);
        assert_eq!(game.grid.count_mines(), 10);
    }
}

#[test]
fn moves_clear_the_status_message() {
    let mut game = corner_game();
    game.status_message = String::from("Grid contains 50/50s");
    game.flag(pos(0, 0));
    assert!(game.status_message.is_empty());
    game.status_message = String::from("x");
    game.uncover(pos(1, 1));
    assert!(game.status_message.is_empty());
}

#[test]
fn plain_game_lays_mines_on_the_first_press() {
    let mut game = Game::new(4, 3, FixedMines(vec![pos(3, 0)]));
    assert_eq!(game.grid.size(), 12);
    assert_eq!(game.grid.count_mines(), 0);
    game.press_cell(0, 2);
    assert_eq!(game.grid.count_mines(), 1);
    assert_eq!(game.grid.get(pos(0, 2)).state, CellState::Revealed);
    assert_eq!(game.grid.get(pos(2, 0)).state, CellState::Revealed);
    assert_eq!(game.grid.get(pos(2, 0)).content, CellContent::Number(1));
    assert_eq!(game.grid.get(pos(3, 0)).state, CellState::Covered);
}

#[test]
fn plain_game_goes_on_after_a_mine() {
    let mut game = Game::new(4, 3, FixedMines(vec![pos(3, 0)]));
    game.press_cell(0, 2);
    game.flag(3, 0);
    assert_eq!(game.grid.get(pos(3, 0)).state, CellState::Flagged);
    game.press_cell(3, 0);
    assert_eq!(game.grid.get(pos(3, 0)).state, CellState::Flagged);
    game.flag(3, 0);
    game.press_cell(3, 0);
    assert_eq!(game.grid.count_revealed_mines(), 1);
    game.flag(3, 0);
    assert_eq!(game.grid.get(pos(3, 0)).state, CellState::Revealed);
}

#[test]
fn plain_game_flags_before_the_first_press() {
    let mut game = Game::new(3, 3, RandomGenerator { num_mines: 1, seed: 4 });
    game.flag(1, 1);
    assert_eq!(game.grid.get(pos(1, 1)).state, CellState::Flagged);
    game.flag(1, 1);
    assert_eq!(game.grid.get(pos(1, 1)).state, CellState::Covered);
}

#[test]
fn first_click_on_a_three_cell_row_wins() {
    let mut game = MinesweeperGame::new(3, 1, FixedMines(vec![pos(2, 0)]));
    game.uncover(pos(0, 0));
    assert!(game.state == State::YouWon);
    let states: Vec<CellState> = game.grid.iter().iter().map(|c| c.state).collect();
    assert_eq!(states, vec![CellState::Revealed, CellState::Revealed, CellState::Covered]);
    let contents: Vec<CellContent> = game.grid.iter().iter().map(|c| c.content).collect();
    assert_eq!(contents, vec![CellContent::Empty, CellContent::Number(1), CellContent::Mine]);
    assert!(game.status_message.is_empty());
}

#[test]
fn a_finished_game_ignores_moves_off_the_board() {
    let mut game = MinesweeperGame::new(3, 1, FixedMines(vec![pos(2, 0)]));
    game.uncover(pos(0, 0));
    assert!(game.state == State::YouWon);
    let before = game.grid.clone();
    game.uncover(pos(7, 9));
    game.flag(pos(7, 9));
    assert!(game.state == State::YouWon);
    assert_eq!(game.grid.iter(), before.iter());
}

#[test]
fn the_first_board_is_the_generators_board() {
    let generator = RandomGenerator { num_mines: 10, seed: 21 };
    let laid = generator.generate(9, 9, pos(4, 4));
    let mut game = MinesweeperGame::new(9, 9, RandomGenerator { num_mines: 10, seed: 21 });
    game.uncover(pos(4, 4));
    let game_contents: Vec<CellContent> = game.grid.iter().iter().map(|c| c.content).collect();
    let laid_contents: Vec<CellContent> = laid.iter().iter().map(|c| c.content).collect();
    assert_eq!(game_contents, laid_contents);
}

#[test]
fn recording_a_solve() {
    let mut game = MinesweeperGame::new(3, 1, FixedMines(vec![pos(2, 0)]));
    game.uncover(pos(1, 0));
    assert!(game.state == State::Playing);
    game.record_solve(Ok(SolveStatus::ProgressMade));
    assert!(game.state == State::Playing);
    assert!(game.status_message.is_empty());
    game.record_solve(Ok(SolveStatus::Stuck));
    assert_eq!(game.status_message, "Grid contains 50/50s");
    game.record_solve(Err(SolverError("Solver took too many iterations")));
    assert_eq!(game.status_message, "Something went wrong with the solver");
    game.record_solve(Ok(SolveStatus::Won));
    assert!(game.state == State::YouWon);
}
