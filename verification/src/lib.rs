//! Minesweeper boards, their rules of play and the generation of boards
//! whose first click is always safe.
pub mod bit_grid;
pub mod cell;
pub mod flood;
pub mod game;
pub mod generator;
pub mod grid;
pub mod icon;
pub mod minesweeper_game;
pub mod minesweeper_grid;
pub mod naive_solvable_generator;
pub mod optimized_solvable_generator;
pub mod random_generator;
pub mod rng;
pub mod solver;
pub mod text;

pub use bit_grid::BitGrid;
pub use cell::{Cell, CellContent, CellState};
pub use game::{Game, Stage};
pub use generator::Generator;
pub use grid::{CellTheme, Grid, Position, cell_theme, format_cell, horizontal_line, pad_cell};
pub use minesweeper_game::{MinesweeperGame, State};
pub use minesweeper_grid::MinesweeperGrid;
pub use naive_solvable_generator::{NaiveGeneration, NaiveSolvableGenerator};
pub use optimized_solvable_generator::{OptimizedGeneration, OptimizedSolvableGenerator};
pub use random_generator::RandomGenerator;
pub use rng::hash;
pub use solver::{Deduction, SolveStatus, Solver, SolverError};
