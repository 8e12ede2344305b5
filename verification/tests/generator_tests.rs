use crabsweeper::{
    BitGrid, CellContent, CellState, Generator, NaiveSolvableGenerator,
    OptimizedSolvableGenerator, Position, RandomGenerator,
};

fn pos(x: usize, y: usize) -> Position {
    Position { x, y }
}

fn mine_positions(g: &crabsweeper::MinesweeperGrid) -> Vec<Position> {
    g.iter_positions().into_iter().filter(|p| g.get(*p).content == CellContent::Mine).collect()
}

#[test]
fn random_generator_lays_the_asked_number_of_mines() {
    let generator = RandomGenerator { num_mines: 10, seed: 7 };
    let g = generator.generate(9, 9, pos(4, 4));
    assert_eq!(g.width, 9);
    assert_eq!(g.height, 9);
    assert_eq!(g.count_mines(), 10);
    assert!(g.iter().iter().all(|c| c.state == CellState::Covered));
}

#[test]
fn random_generator_keeps_the_first_click_clear() {
    for seed in 0..20u64 {
        let generator = RandomGenerator { num_mines: 30, seed };
        let g = generator.generate(8, 6, pos(2, 3));
        assert_ne!(g.get(pos(2, 3)).content, CellContent::Mine);
        for n in g.neighbor_positions(pos(2, 3)) {
            assert_ne!(g.get(n).content, CellContent::Mine);
        }
        assert_eq!(g.get(pos(2, 3)).content, CellContent::Empty);
    }
}

#[test]
fn random_generator_fills_every_allowed_cell_when_asked_for_too_many() {
    let generator = RandomGenerator { num_mines: 100, seed: 1 };
    let g = generator.generate(9, 9, pos(4, 4));
    assert_eq!(g.count_mines(), 72);
}

#[test]
fn random_generator_with_no_allowed_cell() {
    let generator = RandomGenerator { num_mines: 3, seed: 1 };
    let g = generator.generate(3, 3, pos(1, 1));
    assert_eq!(g.count_mines(), 0);
}

#[test]
fn random_generator_depends_on_the_seed_only() {
    let a = RandomGenerator { num_mines: 12, seed: 99 }.generate(10, 10, pos(0, 0));
    let b = RandomGenerator { num_mines: 12, seed: 99 }.generate(10, 10, pos(0, 0));
    assert_eq!(a.iter(), b.iter());
    assert_eq!(RandomGenerator { num_mines: 1, seed: 0 }.name(), "Random Generator");
}

#[test]
fn random_generator_shuffles_the_allowed_cells() {
    let generator = RandomGenerator { num_mines: 10, seed: 42 };
    let g = generator.generate(9, 9, pos(4, 4));
    let in_order: Vec<Position> = BitGrid::empty(9, 9)
        .generate_eligible_generator_positions(pos(4, 4))
        .into_iter()
        .take(10)
        .collect();
    assert_ne!(mine_positions(&g), in_order);
}

#[test]
fn numbers_follow_the_mines() {
    let g = RandomGenerator { num_mines: 15, seed: 3 }.generate(7, 7, pos(3, 3));
    for p in g.iter_positions() {
        if g.get(p).content != CellContent::Mine {
            let n = g.neighbor_positions(p).iter().filter(|q| g.get(**q).content == CellContent::Mine).count();
            let expected = if n == 0 { CellContent::Empty } else { CellContent::Number(n as u8) };
            assert_eq!(g.get(p).content, expected);
        }
    }
}

#[test]
fn placing_mines_in_a_given_order() {
    let order = vec![pos(0, 0), pos(2, 1), pos(1, 1)];
    let g = RandomGenerator::place_mines(3, 2, &order, 2);
    assert_eq!(mine_positions(&g), vec![pos(0, 0), pos(2, 1)]);
    let all = RandomGenerator::place_mines(3, 2, &order, 5);
    assert_eq!(all.count_mines(), 3);
}

#[test]
fn naive_candidates_are_random_boards_with_the_first_click_played() {
    let generator = NaiveSolvableGenerator { num_mines: 10, seed: 5 };
    let mut run = generator.start(9, 9, pos(4, 4));
    for _ in 0..3 {
        assert!(!run.is_done());
        run.next_candidate();
        let candidate = run.candidate();
        assert_eq!(candidate.count_mines(), 10);
        assert_eq!(candidate.get(pos(4, 4)).state, CellState::Revealed);
        assert_eq!(candidate.count_revealed_mines(), 0);
        run.record_verdict(false);
    }
    assert!(!run.is_done());
    assert_eq!(generator.name(), "Naïve Solvable Generator");
}

#[test]
fn naive_run_ends_with_the_approved_candidate() {
    let generator = NaiveSolvableGenerator { num_mines: 8, seed: 2 };
    let mut run = generator.start(6, 6, pos(0, 0));
    run.next_candidate();
    run.record_verdict(false);
    run.next_candidate();
    let approved = run.candidate().clone();
    run.record_verdict(true);
    assert!(run.is_done());
    let g = run.finish();
    assert_eq!(g.iter(), approved.iter());
    assert_eq!(g.count_mines(), 8);
    assert_eq!(g.get(pos(0, 0)).state, CellState::Revealed);
}

#[test]
fn naive_candidates_come_from_a_moving_stream() {
    let generator = NaiveSolvableGenerator { num_mines: 10, seed: 5 };
    let mut run = generator.start(9, 9, pos(4, 4));
    run.next_candidate();
    let first = run.candidate().clone();
    run.record_verdict(false);
    run.next_candidate();
    let second = run.candidate().clone();
    assert_ne!(mine_positions(&first), mine_positions(&second));
    let mut again = generator.start(9, 9, pos(4, 4));
    again.next_candidate();
    assert_eq!(again.candidate().iter(), first.iter());
}

#[test]
fn optimized_run_accepting_every_candidate() {
    let generator = OptimizedSolvableGenerator { num_mines: 10, seed: 11 };
    let mut run = generator.start(9, 9, pos(4, 4));
    let mut rounds = 0;
    while !run.is_done() {
        if run.next_candidate() {
            assert_eq!(run.candidate().get(pos(4, 4)).state, CellState::Revealed);
            run.record_verdict(true);
        }
        rounds += 1;
    }
    assert_eq!(rounds, 10);
    let g = run.finish();
    assert_eq!(g.count_mines(), 10);
    assert_eq!(g.get(pos(4, 4)).content, CellContent::Empty);
    assert_eq!(g.count_revealed_mines(), 0);
}

#[test]
fn optimized_run_with_rejections() {
    let generator = OptimizedSolvableGenerator { num_mines: 5, seed: 2 };
    let mut run = generator.start(6, 6, pos(0, 0));
    let mut verdict = false;
    let mut rounds = 0;
    while !run.is_done() && rounds < 1000 {
        if run.next_candidate() {
            run.record_verdict(verdict);
            verdict = !verdict;
        }
        rounds += 1;
    }
    assert!(run.is_done());
    let g = run.finish();
    assert_eq!(g.count_mines(), 5);
    assert_eq!(g.get(pos(0, 0)).state, CellState::Revealed);
}

#[test]
fn optimized_run_starts_over_when_no_cell_is_left() {
    // 3 allowed cells, every candidate rejected: after trying all three the run
    // takes up its mines and starts again.
    let generator = OptimizedSolvableGenerator { num_mines: 1, seed: 4 };
    let mut run = generator.start(5, 1, pos(0, 0));
    let mut candidates = 0;
    for _ in 0..3 {
        assert!(run.next_candidate());
        candidates += 1;
        run.record_verdict(false);
    }
    assert!(!run.next_candidate());
    assert!(run.next_candidate());
    run.record_verdict(true);
    assert!(run.is_done());
    assert_eq!(candidates, 3);
    assert_eq!(run.finish().count_mines(), 1);
}

#[test]
fn optimized_run_with_no_mines_is_done_at_once() {
    let run = OptimizedSolvableGenerator { num_mines: 0, seed: 4 }.start(3, 3, pos(1, 1));
    assert!(run.is_done());
    let g = run.finish();
    assert_eq!(g.count_mines(), 0);
    assert!(g.iter().iter().all(|c| c.state == CellState::Covered));
    assert_eq!(OptimizedSolvableGenerator { num_mines: 0, seed: 0 }.name(), "Optimized Solvable Generator");
}

#[test]
fn optimized_runs_with_one_seed_draw_the_same_cells() {
    let generator = OptimizedSolvableGenerator { num_mines: 6, seed: 77 };
    let mut boards = Vec::new();
    for _ in 0..2 {
        let mut run = generator.start(7, 7, pos(3, 3));
        let mut verdict = false;
        while !run.is_done() {
            if run.next_candidate() {
                run.record_verdict(verdict);
                verdict = !verdict;
            }
        }
        boards.push(run.finish());
    }
    assert_eq!(boards[0].iter(), boards[1].iter());
    assert_eq!(boards[0].count_mines(), 6);
}

#[test]
fn the_random_board_is_fixed_by_the_seed() {
    let a = RandomGenerator { num_mines: 20, seed: 5 }.generate(9, 9, pos(0, 0));
    let b = RandomGenerator { num_mines: 20, seed: 6 }.generate(9, 9, pos(0, 0));
    assert_ne!(mine_positions(&a), mine_positions(&b));
    let c = RandomGenerator { num_mines: 20, seed: 5 }.generate(9, 9, pos(0, 0));
    assert_eq!(mine_positions(&a), mine_positions(&c));
}

#[test]
fn random_generator_accepts_a_click_off_the_board() {
    let g = RandomGenerator { num_mines: 4, seed: 8 }.generate(3, 3, pos(10, 10));
    assert_eq!(g.count_mines(), 4);
}
