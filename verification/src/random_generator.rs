use vstd::prelude::*;
use crate::bit_grid::BitGrid;
use crate::generator::Generator;
use crate::grid::{
    Position, eligible_prefix, in_grid, is_allowed, is_forbidden, lemma_eligible_prefix,
};
use crate::bit_grid::layout_content;
use crate::cell::{CellContent, CellState};
use crate::grid::position_of;
use crate::minesweeper_grid::{
    CellFilter, MinesweeperGrid, clear_around, count_cells, mine_in, is_consistent, mine_board, positions_layout,
    lemma_layout_board_consistent,
};
use crate::rng::{seeded_shuffle, shuffle_with_seed};
use crate::cell::Cell;

verus! {

/// Spreads `num_mines` mines at random over the cells that the first click
/// leaves free: the order of those cells is shuffled by a generator seeded
/// with `seed`, and the first `num_mines` of them get a mine.
pub struct RandomGenerator {
    pub num_mines: usize,
    pub seed: u64,
}

/// The first `num_mines` positions of `order`, or all of them when there are
/// fewer.
pub open spec fn mines_taken(order: Seq<Position>, num_mines: usize) -> Seq<Position> {
    if num_mines < order.len() {
        order.take(num_mines as int)
    } else {
        order
    }
}

/// A reordering of the allowed positions holds allowed positions only.
proof fn lemma_shuffled_allowed(
    w: usize,
    h: usize,
    pressed: Position,
    eligible: Seq<Position>,
    order: Seq<Position>,
)
    requires
        order.to_multiset() == eligible.to_multiset(),
        forall|j: int| 0 <= j < eligible.len() ==> #[trigger] is_allowed(w, h, pressed, eligible[j]),
    ensures
        forall|k: int| 0 <= k < order.len() ==> #[trigger] is_allowed(w, h, pressed, order[k]),
{
    assert forall|k: int| 0 <= k < order.len() implies #[trigger] is_allowed(w, h, pressed, order[k]) by {
        assert(order.contains(order[k]));
        vstd::seq_lib::to_multiset_contains(order, order[k]);
        vstd::seq_lib::to_multiset_contains(eligible, order[k]);
        assert(eligible.contains(order[k]));
        let j = choose|j: int| 0 <= j < eligible.len() && eligible[j] == order[k];
        assert(is_allowed(w, h, pressed, eligible[j]));
    }
}

/// A board laid out from allowed positions follows its own mines and keeps
/// them away from the pressed cell.
proof fn lemma_random_board(
    grid: MinesweeperGrid,
    w: usize,
    h: usize,
    pressed: Position,
    order: Seq<Position>,
    num_mines: usize,
)
    requires
        grid.wf(),
        grid.width == w,
        grid.height == h,
        grid.cells() == mine_board(w, h, mines_taken(order, num_mines)),
        forall|k: int| 0 <= k < order.len() ==> #[trigger] is_allowed(w, h, pressed, order[k]),
    ensures
        is_consistent(grid),
        clear_around(grid, pressed),
{
    let mines = mines_taken(order, num_mines);
    let layout = positions_layout(mines);
    assert forall|i: int| 0 <= i < grid.cells().len() implies (#[trigger] grid.cells()[i]).content
        == layout_content(w, h, layout, position_of(w, i)) by {
        assert(grid.cells()[i] == mine_board(w, h, mines)[i]);
    }
    lemma_layout_board_consistent(grid, layout);
    assert forall|q: Position|
        in_grid(w, h, q) && #[trigger] is_forbidden(w, h, pressed, q) implies grid.at(q).content
        != CellContent::Mine by {
        assert(mine_in(grid)(q) == layout(q));
        if mines.contains(q) {
            let j = choose|j: int| 0 <= j < mines.len() && mines[j] == q;
            assert(order[j] == q);
            assert(is_allowed(w, h, pressed, order[j]));
        }
    }
}

/// `laid` is a board that the random generator can lay for a first click on
/// `pressed`: its mines are the first `num_mines` cells (all of them when
/// there are fewer) of some order of the cells allowed to hold a mine.
pub open spec fn is_random_layout(
    laid: MinesweeperGrid,
    w: usize,
    h: usize,
    pressed: Position,
    num_mines: usize,
) -> bool {
    &&& laid.wf()
    &&& laid.width == w
    &&& laid.height == h
    &&& exists|order: Seq<Position>|
        #![trigger order.to_multiset()]
        order.to_multiset() == eligible_prefix(w, h, pressed, w * h).to_multiset() && laid.cells()
            == mine_board(w, h, mines_taken(order, num_mines))
}

/// A board that the random generator can lay follows its own mines and keeps
/// them away from the pressed cell.
pub proof fn lemma_random_layout_sound(
    laid: MinesweeperGrid,
    w: usize,
    h: usize,
    pressed: Position,
    num_mines: usize,
)
    requires
        is_random_layout(laid, w, h, pressed, num_mines),
    ensures
        is_consistent(laid),
        clear_around(laid, pressed),
{
    let eligible = eligible_prefix(w, h, pressed, w * h);
    let order = choose|order: Seq<Position>|
        #![trigger order.to_multiset()]
        order.to_multiset() == eligible.to_multiset() && laid.cells() == mine_board(
            w,
            h,
            mines_taken(order, num_mines),
        );
    lemma_eligible_prefix(w, h, pressed, w * h);
    assert forall|j: int| 0 <= j < eligible.len() implies #[trigger] is_allowed(
        w,
        h,
        pressed,
        eligible[j],
    ) by {}
    lemma_shuffled_allowed(w, h, pressed, eligible, order);
    lemma_random_board(laid, w, h, pressed, order, num_mines);
}

/// The cells of the board that the random generator lays with `seed` for a
/// first click on `pressed`: its mines are the first `num_mines` allowed
/// cells (all of them when there are fewer) in the order of the seeded
/// shuffle.
pub open spec fn random_board(w: usize, h: usize, pressed: Position, num_mines: usize, seed: u64) -> Seq<Cell> {
    mine_board(w, h, mines_taken(seeded_shuffle(eligible_prefix(w, h, pressed, w * h), seed), num_mines))
}

impl RandomGenerator {
    /// The covered board whose mines are the first `num_mines` positions of
    /// `order` (all of them when there are fewer).
    pub fn place_mines(width: usize, height: usize, order: &Vec<Position>, num_mines: usize) -> (g:
        MinesweeperGrid)
        requires
            width * height <= usize::MAX,
            forall|k: int| 0 <= k < order@.len() ==> #[trigger] in_grid(width, height, order@[k]),
        ensures
            g.wf(),
            g.width == width,
            g.height == height,
            g.cells() == mine_board(width, height, mines_taken(order@, num_mines)),
    {
        let mut bit_grid = BitGrid::empty(width, height);
        let n = if num_mines < order.len() {
            num_mines
        } else {
            order.len()
        };
        let mut mines: Vec<Position> = Vec::new();
        let mut k: usize = 0;
        while k < n
            invariant
                n <= order@.len(),
                k <= n,
                mines@ == order@.take(k as int),
            decreases n - k,
        {
            mines.push(order[k]);
            assert(order@.take(k as int + 1) =~= order@.take(k as int).push(order@[k as int]));
            k = k + 1;
        }
        assert(mines@ =~= mines_taken(order@, num_mines));
        let g = MinesweeperGrid::from_mine_positions(width, height, &mines);
        assert(g.cells() =~= mine_board(width, height, mines_taken(order@, num_mines)));
        g
    }
}

impl Generator for RandomGenerator {
    open spec fn produces(&self, width: usize, height: usize, pressed_position: Position, grid: MinesweeperGrid) -> bool {
        &&& grid.wf()
        &&& grid.width == width
        &&& grid.height == height
        &&& grid.cells() == random_board(width, height, pressed_position, self.num_mines, self.seed)
    }

    fn generate(&self, width: usize, height: usize, pressed_position: Position) -> (grid:
        MinesweeperGrid)
        ensures
            is_random_layout(grid, width, height, pressed_position, self.num_mines),
    {
        let bit_grid = BitGrid::empty(width, height);
        assert(width > 0 || bit_grid.cells().len() == 0) by (nonlinear_arith)
            requires
                bit_grid.cells().len() == width * height,
        ;
        let mut eligible_generator_positions = bit_grid.generate_eligible_generator_positions(
            pressed_position,
        );
        let ghost eligible = eligible_generator_positions@;
        proof {
            lemma_eligible_prefix(width, height, pressed_position, (width * height) as int);
            assert forall|j: int| 0 <= j < eligible.len() implies #[trigger] is_allowed(
                width,
                height,
                pressed_position,
                eligible[j],
            ) by {
                assert(is_allowed(width, height, pressed_position, eligible_prefix(width, height, pressed_position, (width * height) as int)[j]));
            }
        }
        shuffle_with_seed(&mut eligible_generator_positions, self.seed);
        let ghost order = eligible_generator_positions@;
        proof {
            lemma_shuffled_allowed(width, height, pressed_position, eligible, order);
            assert forall|k: int| 0 <= k < order.len() implies #[trigger] in_grid(
                width,
                height,
                order[k],
            ) by {
                assert(is_allowed(width, height, pressed_position, order[k]));
            }
        }
        let grid = RandomGenerator::place_mines(
            width,
            height,
            &eligible_generator_positions,
            self.num_mines,
        );
        proof {
            lemma_random_board(grid, width, height, pressed_position, order, self.num_mines);
            assert(order.to_multiset() == eligible_prefix(width, height, pressed_position, width * height).to_multiset());
        }
        grid
    }

    fn name(&self) -> (r: &'static str)
        ensures
            r@ == "Random Generator"@,
    {
        "Random Generator"
    }
}

/// Law: the board of the random generator holds a mine exactly on the cells
/// that come first, `num_mines` of them (all when there are fewer), in the
/// seeded shuffle of the whole list of cells allowed to hold one; every other
/// cell's content counts its mines, and every cell is covered.
pub proof fn lemma_random_board_mines(
    generator: RandomGenerator,
    w: usize,
    h: usize,
    pressed: Position,
    grid: MinesweeperGrid,
)
    requires
        generator.produces(w, h, pressed, grid),
    ensures
        forall|q: Position|
            in_grid(w, h, q) ==> {
                let order = seeded_shuffle(eligible_prefix(w, h, pressed, w * h), generator.seed);
                &&& (#[trigger] grid.at(q)).state == CellState::Covered
                &&& (grid.at(q).content == CellContent::Mine <==> exists|k: int|
                    0 <= k < order.len() && k < generator.num_mines && order[k] == q)
            },
{
    let order = seeded_shuffle(eligible_prefix(w, h, pressed, w * h), generator.seed);
    let mines = mines_taken(order, generator.num_mines);
    assert forall|q: Position| in_grid(w, h, q) implies {
        &&& (#[trigger] grid.at(q)).state == CellState::Covered
        &&& (grid.at(q).content == CellContent::Mine <==> exists|k: int|
            0 <= k < order.len() && k < generator.num_mines && order[k] == q)
    } by {
        crate::grid::lemma_index_in_range(w, h, q);
        assert(grid.at(q) == grid.cells()[crate::grid::index_of(w, q)]);
        if mines.contains(q) {
            let k = choose|k: int| 0 <= k < mines.len() && mines[k] == q;
            assert(order[k] == q);
        }
        if exists|k: int| 0 <= k < order.len() && k < generator.num_mines && order[k] == q {
            let k = choose|k: int| 0 <= k < order.len() && k < generator.num_mines && order[k] == q;
            assert(mines[k] == q);
        }
    }
}

/// Law: the random generator lays exactly `num_mines` mines, or one on every
/// allowed cell when there are fewer allowed cells than that.
pub proof fn lemma_random_mine_count(
    w: usize,
    h: usize,
    pressed: Position,
    order: Seq<Position>,
    num_mines: usize,
)
    requires
        w * h <= usize::MAX,
        order.to_multiset() == eligible_prefix(w, h, pressed, w * h).to_multiset(),
    ensures
        count_cells(mine_board(w, h, mines_taken(order, num_mines)), CellFilter::Mine) == if num_mines
            < eligible_prefix(w, h, pressed, w * h).len() {
            num_mines as nat
        } else {
            eligible_prefix(w, h, pressed, w * h).len()
        },
{
    broadcast use vstd::seq_lib::group_to_multiset_ensures;

    let eligible = eligible_prefix(w, h, pressed, w * h);
    lemma_eligible_prefix(w, h, pressed, (w * h) as int);
    assert forall|j: int| 0 <= j < eligible.len() implies #[trigger] is_allowed(
        w,
        h,
        pressed,
        eligible[j],
    ) by {}
    lemma_shuffled_allowed(w, h, pressed, eligible, order);
    eligible.lemma_multiset_has_no_duplicates();
    order.lemma_multiset_has_no_duplicates_conv();
    let mines = mines_taken(order, num_mines);
    assert forall|k: int| 0 <= k < mines.len() implies #[trigger] in_grid(w, h, mines[k]) by {
        assert(mines[k] == order[k]);
        assert(is_allowed(w, h, pressed, order[k]));
    }
    assert(mines.no_duplicates()) by {
        assert forall|a: int, b: int| 0 <= a < b < mines.len() implies mines[a] != mines[b] by {
            assert(mines[a] == order[a] && mines[b] == order[b]);
        }
    }
    crate::minesweeper_grid::lemma_mine_board_count(w, h, mines);
    vstd::seq_lib::to_multiset_len(order);
    vstd::seq_lib::to_multiset_len(eligible);
    assert(order.len() == eligible.len());
}

} // verus!
