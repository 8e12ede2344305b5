use vstd::prelude::*;
use crate::bit_grid::{BitGrid, layout_content, marked_in};
use crate::cell::{
    Cell, CellContent, CellState, flagged_cell, has_printable_number, minesweeprs_char,
    revealed_cell,
};
use crate::text::{decimal, decimal_string, push_char};
use crate::flood::{
    flood_reaches, flood_result, flood_step, propagates, lemma_closed_holds_reached,
    lemma_reach_extend, lemma_reach_start, lemma_step_in_grid,
};
use crate::grid::{
    Grid, Position, count_in, in_grid, index_of, is_forbidden, neighbor_seq, position_of,
    lemma_count_take,
    lemma_count_update,
    lemma_count_bound, lemma_index_in_range, lemma_position_in_range, lemma_neighbors_in_grid,
};

verus! {

/// A minesweeper board: what each cell holds and what the player sees of it.
pub type MinesweeperGrid = Grid<Cell>;

/// The kinds of cell that the board counts.
pub enum CellFilter {
    Mine,
    CoveredOrFlagged,
    RevealedMine,
    Flagged,
    UnflaggedMine,
}

impl CellFilter {
    pub open spec fn holds(self, c: Cell) -> bool {
        match self {
            CellFilter::Mine => c.content == CellContent::Mine,
            CellFilter::CoveredOrFlagged => c.state == CellState::Covered || c.state
                == CellState::Flagged,
            CellFilter::RevealedMine => c.content == CellContent::Mine && c.state
                == CellState::Revealed,
            CellFilter::Flagged => c.state == CellState::Flagged,
            CellFilter::UnflaggedMine => c.content == CellContent::Mine && (c.state
                == CellState::Covered || c.state == CellState::Revealed),
        }
    }

    pub open spec fn pred(self) -> spec_fn(Cell) -> bool {
        |c: Cell| self.holds(c)
    }

    fn matches(&self, c: &Cell) -> (r: bool)
        ensures
            r == self.holds(*c),
    {
        match self {
            CellFilter::Mine => c.content == CellContent::Mine,
            CellFilter::CoveredOrFlagged => c.state == CellState::Covered || c.state
                == CellState::Flagged,
            CellFilter::RevealedMine => c.content == CellContent::Mine && c.state
                == CellState::Revealed,
            CellFilter::Flagged => c.state == CellState::Flagged,
            CellFilter::UnflaggedMine => c.content == CellContent::Mine && (c.state
                == CellState::Covered || c.state == CellState::Revealed),
        }
    }
}

/// How many cells of `cells` are of the kind `filter`.
pub open spec fn count_cells(cells: Seq<Cell>, filter: CellFilter) -> nat {
    count_in(cells, filter.pred())
}

/// A covered cell with the given content.
pub open spec fn covered(content: CellContent) -> Cell {
    Cell { content, state: CellState::Covered }
}

/// The set of positions listed in `ps`, as a mine layout.
pub open spec fn positions_layout(ps: Seq<Position>) -> spec_fn(Position) -> bool {
    |q: Position| ps.contains(q)
}

/// Whether the cell of `g` at a position holds a mine.
pub open spec fn mine_in(g: Grid<Cell>) -> spec_fn(Position) -> bool {
    |q: Position| g.at(q).content == CellContent::Mine
}

/// Every cell shows what the mines of the board make it show: a mine, or the
/// number of mines around it.
pub open spec fn is_consistent(g: Grid<Cell>) -> bool {
    forall|i: int|
        0 <= i < g.cells().len() ==> (#[trigger] g.cells()[i]).content == layout_content(
            g.width,
            g.height,
            mine_in(g),
            position_of(g.width, i),
        )
}

/// No mine lies on `p` or around it.
pub open spec fn clear_around(g: Grid<Cell>, p: Position) -> bool {
    forall|q: Position|
        in_grid(g.width, g.height, q) && #[trigger] is_forbidden(g.width, g.height, p, q)
            ==> g.at(q).content != CellContent::Mine
}

/// The cells of a `w` by `h` board, all covered, whose mines are the
/// positions listed in `mines`.
pub open spec fn mine_board(w: usize, h: usize, mines: Seq<Position>) -> Seq<Cell> {
    Seq::new(
        (w * h) as nat,
        |i: int| covered(layout_content(w, h, positions_layout(mines), position_of(w, i))),
    )
}

/// A board whose contents follow a mine layout shows what its own mines make
/// it show.
pub proof fn lemma_layout_board_consistent(g: Grid<Cell>, layout: spec_fn(Position) -> bool)
    requires
        g.wf(),
        forall|i: int|
            0 <= i < g.cells().len() ==> (#[trigger] g.cells()[i]).content == layout_content(
                g.width,
                g.height,
                layout,
                position_of(g.width, i),
            ),
    ensures
        is_consistent(g),
        forall|q: Position| in_grid(g.width, g.height, q) ==> #[trigger] mine_in(g)(q) == layout(q),
{
    let w = g.width;
    let h = g.height;
    assert forall|q: Position| in_grid(w, h, q) implies #[trigger] mine_in(g)(q) == layout(q) by {
        lemma_index_in_range(w, h, q);
        assert(g.cells()[index_of(w, q)].content == layout_content(w, h, layout, q));
    }
    assert forall|i: int| 0 <= i < g.cells().len() implies (#[trigger] g.cells()[i]).content
        == layout_content(w, h, mine_in(g), position_of(w, i)) by {
        lemma_position_in_range(w, h, i);
        lemma_same_layout_content(w, h, layout, mine_in(g), position_of(w, i));
    }
}

/// The cells of `g` after the player toggles the flag at `p`.
pub open spec fn flag_result(g: Grid<Cell>, p: Position) -> Seq<Cell> {
    g.cells().update(index_of(g.width, p), flagged_cell(g.at(p)))
}

/// The board is won once no more cells are hidden than there are mines.
pub open spec fn solved(cells: Seq<Cell>) -> bool {
    count_cells(cells, CellFilter::CoveredOrFlagged) <= count_cells(cells, CellFilter::Mine)
}

/// Whether the cell of `g` at a position carries a flag.
pub open spec fn flagged_in(g: Grid<Cell>) -> spec_fn(Position) -> bool {
    |q: Position| g.at(q).state == CellState::Flagged
}

/// How many of the cells around `p` carry a flag.
pub open spec fn flagged_neighbors(g: Grid<Cell>, p: Position) -> nat {
    count_in(neighbor_seq(g.width, g.height, p), flagged_in(g))
}

/// A chord on `p` opens its neighbours: `p` shows a number and exactly that
/// many of its neighbours are flagged.
pub open spec fn chord_applies(g: Grid<Cell>, p: Position) -> bool {
    &&& g.at(p).content is Number
    &&& flagged_neighbors(g, p) == g.at(p).content->Number_0
}

/// The cells `cells` of a board `w` wide after each covered cell listed in
/// `ps` is revealed (alone, without spreading).
pub open spec fn reveal_each(w: usize, cells: Seq<Cell>, ps: Seq<Position>) -> Seq<Cell> {
    Seq::new(
        cells.len(),
        |i: int|
            if ps.contains(position_of(w, i)) {
                revealed_cell(cells[i])
            } else {
                cells[i]
            },
    )
}

/// The cells of `g` after a chord on `p`.
pub open spec fn chord_result(g: Grid<Cell>, p: Position) -> Seq<Cell> {
    if chord_applies(g, p) {
        reveal_each(g.width, g.cells(), neighbor_seq(g.width, g.height, p))
    } else {
        g.cells()
    }
}

impl MinesweeperGrid {
    fn count_matching(&self, filter: CellFilter) -> (r: usize)
        ensures
            r == count_cells(self.cells(), filter),
    {
        let cells = self.iter();
        let ghost f = filter.pred();
        let mut count: usize = 0;
        let mut i: usize = 0;
        while i < cells.len()
            invariant
                cells@ == self.cells(),
                f == filter.pred(),
                i <= cells@.len(),
                count == count_in(cells@.take(i as int), f),
            decreases cells@.len() - i,
        {
            proof {
                lemma_count_take(cells@, f, i as int);
                lemma_count_bound(cells@.take(i as int + 1), f);
            }
            if filter.matches(&cells[i]) {
                count = count + 1;
            }
            i = i + 1;
        }
        assert(cells@.take(cells@.len() as int) =~= cells@);
        count
    }

    /// The board of covered cells whose mines are the marks of `bit_grid`.
    pub fn from_bit_grid(bit_grid: &BitGrid) -> (g: Grid<Cell>)
        requires
            bit_grid.wf(),
        ensures
            g.wf(),
            g.width == bit_grid.width,
            g.height == bit_grid.height,
            forall|i: int|
                0 <= i < g.cells().len() ==> #[trigger] g.cells()[i] == covered(
                    layout_content(
                        bit_grid.width,
                        bit_grid.height,
                        marked_in(*bit_grid),
                        position_of(bit_grid.width, i),
                    ),
                ),
    {
        let width = bit_grid.width;
        let height = bit_grid.height;
        let n = bit_grid.size();
        let mut cells: Vec<Cell> = Vec::new();
        let mut i: usize = 0;
        while i < n
            invariant
                bit_grid.wf(),
                width == bit_grid.width,
                height == bit_grid.height,
                n == width * height,
                i <= n,
                cells@.len() == i,
                forall|j: int|
                    0 <= j < i ==> #[trigger] cells@[j] == covered(
                        layout_content(width, height, marked_in(*bit_grid), position_of(width, j)),
                    ),
            decreases n - i,
        {
            proof {
                lemma_position_in_range(width, height, i as int);
            }
            let position = Position { x: i % width, y: i / width };
            let content = bit_grid.get_cell_content(position);
            cells.push(Cell::from(content));
            i = i + 1;
        }
        Grid::new(width, height, cells)
    }

    /// A board of `width * height` covered cells with no mines.
    pub fn empty(width: usize, height: usize) -> (g: Grid<Cell>)
        requires
            width * height <= usize::MAX,
        ensures
            g.wf(),
            g.width == width,
            g.height == height,
            forall|i: int|
                0 <= i < g.cells().len() ==> #[trigger] g.cells()[i] == covered(CellContent::Empty),
    {
        let bits = BitGrid::empty(width, height);
        let g = Self::from_bit_grid(&bits);
        assert forall|i: int| 0 <= i < g.cells().len() implies #[trigger] g.cells()[i] == covered(
            CellContent::Empty,
        ) by {
            let p = position_of(width, i);
            lemma_position_in_range(width, height, i);
            let s = neighbor_seq(width, height, p);
            lemma_neighbors_in_grid(width, height, p);
            assert forall|j: int| 0 <= j < s.len() implies !marked_in(bits)(#[trigger] s[j]) by {
                assert(in_grid(width, height, s[j]));
                lemma_index_in_range(width, height, s[j]);
            }
            lemma_count_none(s, marked_in(bits));
        }
        g
    }

    pub fn count_mines(&self) -> (r: usize)
        ensures
            r == count_cells(self.cells(), CellFilter::Mine),
    {
        self.count_matching(CellFilter::Mine)
    }

    pub fn count_covered_or_flagged(&self) -> (r: usize)
        ensures
            r == count_cells(self.cells(), CellFilter::CoveredOrFlagged),
    {
        self.count_matching(CellFilter::CoveredOrFlagged)
    }

    pub fn count_revealed_mines(&self) -> (r: usize)
        ensures
            r == count_cells(self.cells(), CellFilter::RevealedMine),
    {
        self.count_matching(CellFilter::RevealedMine)
    }

    pub fn count_flags(&self) -> (r: usize)
        ensures
            r == count_cells(self.cells(), CellFilter::Flagged),
    {
        self.count_matching(CellFilter::Flagged)
    }

    /// How many flags the player has left to place: mines minus flags.
    pub fn count_remaining_flags(&self) -> (r: isize)
        requires
            self.cells().len() <= isize::MAX,
        ensures
            r == count_cells(self.cells(), CellFilter::Mine) - count_cells(
                self.cells(),
                CellFilter::Flagged,
            ),
    {
        let mines = self.count_mines();
        let flags = self.count_flags();
        proof {
            lemma_count_bound(self.cells(), CellFilter::Mine.pred());
            lemma_count_bound(self.cells(), CellFilter::Flagged.pred());
        }
        mines as isize - flags as isize
    }

    pub fn count_unflagged_mines(&self) -> (r: usize)
        ensures
            r == count_cells(self.cells(), CellFilter::UnflaggedMine),
    {
        self.count_matching(CellFilter::UnflaggedMine)
    }

    fn try_reveal_single(&mut self, position: Position)
        requires
            old(self).wf(),
            old(self).in_bounds(position),
        ensures
            final(self).width == old(self).width,
            final(self).height == old(self).height,
            final(self).cells() == old(self).cells().update(
                index_of(old(self).width, position),
                revealed_cell(old(self).at(position)),
            ),
    {
        let cell = self.get_mut(position);
        if cell.can_be_revealed() {
            cell.state = CellState::Revealed;
        }
    }

    /// Reveals the cell at `position` and, from every revealed empty cell it
    /// reaches, spreads to the covered cells around it.
    pub fn uncover(&mut self, position: Position)
        requires
            old(self).wf(),
            old(self).in_bounds(position),
        ensures
            final(self).width == old(self).width,
            final(self).height == old(self).height,
            final(self).cells() == flood_result(*old(self), position),
    {
        let ghost g0 = *self;
        let w = self.width;
        let h = self.height;
        let n = self.size();
        let mut visited: Vec<bool> = Vec::new();
        let mut i: usize = 0;
        while i < n
            invariant
                i <= n,
                visited@.len() == i,
                forall|j: int| 0 <= j < i ==> !#[trigger] visited@[j],
            decreases n - i,
        {
            visited.push(false);
            i = i + 1;
        }
        let mut stack: Vec<Position> = Vec::new();
        stack.push(position);
        proof {
            lemma_reach_start(g0, position);
            lemma_index_in_range(w, h, position);
            assert(stack@[0] == position);
            assert forall|a: Position, b: Position|
                in_grid(w, h, a) && visited@[index_of(w, a)] && #[trigger] flood_step(g0, a, b)
                    implies visited@[index_of(w, b)] || stack@.contains(b) by {
                lemma_index_in_range(w, h, a);
            }
        }
        while stack.len() > 0
            invariant
                g0.wf(),
                g0.width == w,
                g0.height == h,
                in_grid(w, h, position),
                n == g0.cells().len(),
                self.width == w,
                self.height == h,
                self.cells().len() == n,
                visited@.len() == n,
                forall|i: int|
                    0 <= i < n ==> #[trigger] self.cells()[i] == if visited@[i] {
                        revealed_cell(g0.cells()[i])
                    } else {
                        g0.cells()[i]
                    },
                forall|i: int|
                    0 <= i < n && #[trigger] visited@[i] ==> flood_reaches(
                        g0,
                        position,
                        position_of(w, i),
                    ),
                forall|k: int|
                    0 <= k < stack@.len() ==> in_grid(w, h, #[trigger] stack@[k]) && flood_reaches(
                        g0,
                        position,
                        stack@[k],
                    ),
                visited@[index_of(w, position)] || stack@.contains(position),
                forall|a: Position, b: Position|
                    in_grid(w, h, a) && visited@[index_of(w, a)] && #[trigger] flood_step(g0, a, b)
                        ==> visited@[index_of(w, b)] || stack@.contains(b),
            decreases count_in(visited@, is_unset()), stack@.len(),
        {
            let ghost stack0 = stack@;
            let ghost visited0 = visited@;
            let q = stack.pop().unwrap();
            assert(stack0[stack0.len() - 1] == q);
            assert(stack@ =~= stack0.drop_last());
            assert(in_grid(w, h, q) && flood_reaches(g0, position, q));
            proof {
                lemma_index_in_range(w, h, q);
                lemma_index_in_range(w, h, position);
            }
            let qi = self.index(q);
            if visited[qi] {
                proof {
                    if stack0.contains(position) && position != q {
                        lemma_contains_after_pop(stack0, position);
                    }
                    assert forall|a: Position, b: Position|
                        in_grid(w, h, a) && visited@[index_of(w, a)] && #[trigger] flood_step(
                            g0,
                            a,
                            b,
                        ) implies visited@[index_of(w, b)] || stack@.contains(b) by {
                        if stack0.contains(b) && b != q {
                            lemma_contains_after_pop(stack0, b);
                        }
                    }
                }
                continue;
            }
            visited.set(qi, true);
            proof {
                lemma_count_update(visited0, is_unset(), qi as int, true);
            }
            self.try_reveal_single(q);
            if !self.get(q).should_propagate() {
                proof {
                    assert(!propagates(g0.at(q)));
                    if stack0.contains(position) && position != q {
                        lemma_contains_after_pop(stack0, position);
                    }
                    assert forall|a: Position, b: Position|
                        in_grid(w, h, a) && visited@[index_of(w, a)] && #[trigger] flood_step(
                            g0,
                            a,
                            b,
                        ) implies visited@[index_of(w, b)] || stack@.contains(b) by {
                        lemma_index_in_range(w, h, a);
                        lemma_step_in_grid(g0, a, b);
                        lemma_index_in_range(w, h, b);
                        if a != q {
                            if index_of(w, a) == index_of(w, q) {
                                crate::grid::lemma_index_injective(w, h, a, q);
                            }
                            if stack0.contains(b) && b != q {
                                lemma_contains_after_pop(stack0, b);
                            }
                        }
                    }
                }
                continue;
            }
            assert(propagates(g0.at(q)));
            let neighbors = self.neighbor_positions(q);
            proof {
                lemma_neighbors_in_grid(w, h, q);
            }
            let ghost stack1 = stack@;
            let ghost cells1 = self.cells();
            let mut j: usize = 0;
            while j < neighbors.len()
                invariant
                    g0.wf(),
                    g0.width == w,
                    g0.height == h,
                    n == g0.cells().len(),
                    self.width == w,
                    self.height == h,
                    self.cells() == cells1,
                    cells1.len() == n,
                    visited@.len() == n,
                    forall|i: int|
                        0 <= i < n ==> #[trigger] cells1[i] == if visited@[i] {
                            revealed_cell(g0.cells()[i])
                        } else {
                            g0.cells()[i]
                        },
                    in_grid(w, h, q),
                    propagates(g0.at(q)),
                    flood_reaches(g0, position, q),
                    neighbors@ == neighbor_seq(w, h, q),
                    forall|k: int|
                        0 <= k < neighbors@.len() ==> #[trigger] in_grid(w, h, neighbors@[k]),
                    j <= neighbors@.len(),
                    stack@.len() >= stack1.len(),
                    forall|k: int| 0 <= k < stack1.len() ==> stack@[k] == #[trigger] stack1[k],
                    forall|k: int|
                        0 <= k < stack@.len() ==> in_grid(w, h, #[trigger] stack@[k])
                            && flood_reaches(g0, position, stack@[k]),
                    forall|k: int|
                        0 <= k < j && g0.at(#[trigger] neighbors@[k]).state == CellState::Covered
                            ==> visited@[index_of(w, neighbors@[k])] || stack@.contains(
                            neighbors@[k],
                        ),
                decreases neighbors@.len() - j,
            {
                let np = neighbors[j];
                assert(in_grid(w, h, neighbors@[j as int]));
                proof {
                    lemma_index_in_range(w, h, np);
                }
                let ghost stack2 = stack@;
                if self.get(np).can_be_revealed() {
                    stack.push(np);
                    proof {
                        assert(neighbor_seq(w, h, q)[j as int] == np);
                        assert(flood_step(g0, q, np));
                        lemma_reach_extend(g0, position, q, np);
                        assert(stack@[stack2.len() as int] == np);
                        assert forall|k: int|
                            0 <= k < j + 1 && g0.at(#[trigger] neighbors@[k]).state
                                == CellState::Covered implies visited@[index_of(w, neighbors@[k])]
                            || stack@.contains(neighbors@[k]) by {
                            if k < j && stack2.contains(neighbors@[k]) {
                                lemma_contains_in_prefix(stack2, stack@, neighbors@[k]);
                            }
                        }
                    }
                }
                j = j + 1;
            }
            proof {
                if stack0.contains(position) && position != q {
                    lemma_contains_after_pop(stack0, position);
                    lemma_contains_in_prefix(stack1, stack@, position);
                }
                assert forall|a: Position, b: Position|
                    in_grid(w, h, a) && visited@[index_of(w, a)] && #[trigger] flood_step(
                        g0,
                        a,
                        b,
                    ) implies visited@[index_of(w, b)] || stack@.contains(b) by {
                    lemma_index_in_range(w, h, a);
                    lemma_step_in_grid(g0, a, b);
                    lemma_index_in_range(w, h, b);
                    if a == q {
                        let k = choose|k: int|
                            0 <= k < neighbors@.len() && neighbors@[k] == b;
                        assert(g0.at(neighbors@[k]).state == CellState::Covered);
                    } else {
                        if index_of(w, a) == index_of(w, q) {
                            crate::grid::lemma_index_injective(w, h, a, q);
                        }
                        if stack0.contains(b) && b != q {
                            lemma_contains_after_pop(stack0, b);
                            lemma_contains_in_prefix(stack1, stack@, b);
                        }
                    }
                }
            }
        }
        proof {
            let inside = |p: Position| in_grid(w, h, p) && visited@[index_of(w, p)];
            assert forall|a: Position, b: Position| inside(a) && #[trigger] flood_step(g0, a, b)
                implies inside(b) by {
                lemma_step_in_grid(g0, a, b);
            }
            lemma_closed_holds_reached(g0, position, inside);
            assert forall|i: int| 0 <= i < n implies #[trigger] self.cells()[i] == flood_result(
                g0,
                position,
            )[i] by {
                lemma_position_in_range(w, h, i);
                let p = position_of(w, i);
                if flood_reaches(g0, position, p) {
                    assert(inside(p));
                }
            }
            assert(self.cells() =~= flood_result(g0, position));
        }
    }

    /// On a numbered cell with as many flags around it as its number, reveals
    /// every covered neighbour (each alone, without spreading).
    pub fn chord(&mut self, position: Position)
        requires
            old(self).wf(),
            old(self).in_bounds(position),
        ensures
            final(self).width == old(self).width,
            final(self).height == old(self).height,
            final(self).cells() == chord_result(*old(self), position),
            !(old(self).at(position).content is Number) || count_in(
                neighbor_seq(old(self).width, old(self).height, position),
                |q: Position| old(self).at(q).state == CellState::Flagged,
            ) != old(self).at(position).content->Number_0 ==> final(self).cells() == old(self).cells(),
    {
        proof {
            lemma_chord_needs_exact_flags(*old(self), position);
        }
        let cell = *self.get(position);
        let neighbor_positions = self.neighbor_positions(position);
        proof {
            lemma_neighbors_in_grid(self.width, self.height, position);
        }
        if let CellContent::Number(n) = cell.content {
            let ghost g = *self;
            let ghost f = flagged_in(g);
            let mut num_flagged_neighbors: usize = 0;
            let mut i: usize = 0;
            while i < neighbor_positions.len()
                invariant
                    *self == g,
                    g.wf(),
                    f == flagged_in(g),
                    neighbor_positions@ == neighbor_seq(g.width, g.height, position),
                    forall|j: int|
                        0 <= j < neighbor_positions@.len() ==> #[trigger] in_grid(
                            g.width,
                            g.height,
                            neighbor_positions@[j],
                        ),
                    i <= neighbor_positions@.len(),
                    num_flagged_neighbors == count_in(neighbor_positions@.take(i as int), f),
                decreases neighbor_positions@.len() - i,
            {
                proof {
                    lemma_count_take(neighbor_positions@, f, i as int);
                    lemma_count_bound(neighbor_positions@.take(i as int + 1), f);
                }
                assert(in_grid(g.width, g.height, neighbor_positions@[i as int]));
                if self.get(neighbor_positions[i]).state == CellState::Flagged {
                    num_flagged_neighbors = num_flagged_neighbors + 1;
                }
                i = i + 1;
            }
            assert(neighbor_positions@.take(neighbor_positions@.len() as int) =~= neighbor_positions@);
            if num_flagged_neighbors == n as usize {
                let mut k: usize = 0;
                while k < neighbor_positions.len()
                    invariant
                        g.wf(),
                        self.width == g.width,
                        self.height == g.height,
                        neighbor_positions@ == neighbor_seq(g.width, g.height, position),
                        forall|j: int|
                            0 <= j < neighbor_positions@.len() ==> #[trigger] in_grid(
                                g.width,
                                g.height,
                                neighbor_positions@[j],
                            ),
                        k <= neighbor_positions@.len(),
                        self.cells() == reveal_each(
                            g.width,
                            g.cells(),
                            neighbor_positions@.take(k as int),
                        ),
                    decreases neighbor_positions@.len() - k,
                {
                    let np = neighbor_positions[k];
                    assert(in_grid(g.width, g.height, neighbor_positions@[k as int]));
                    let ghost before = self.cells();
                    self.try_reveal_single(np);
                    proof {
                        let w = g.width;
                        let prev = neighbor_positions@.take(k as int);
                        let next = neighbor_positions@.take(k as int + 1);
                        assert(next =~= prev.push(np));
                        lemma_index_in_range(g.width, g.height, np);
                        assert forall|i: int| 0 <= i < g.cells().len() implies #[trigger] self.cells()[i]
                            == reveal_each(w, g.cells(), next)[i] by {
                            lemma_position_in_range(g.width, g.height, i);
                            let q = position_of(w, i);
                            if i == index_of(w, np) {
                                assert(next[k as int] == np);
                            } else {
                                assert(q != np);
                                if prev.contains(q) {
                                    let j = choose|j: int| 0 <= j < prev.len() && prev[j] == q;
                                    assert(next[j] == q);
                                }
                                if next.contains(q) {
                                    let j = choose|j: int| 0 <= j < next.len() && next[j] == q;
                                    assert(prev[j] == q);
                                }
                            }
                        }
                        assert(self.cells() =~= reveal_each(w, g.cells(), next));
                    }
                    k = k + 1;
                }
                assert(neighbor_positions@.take(neighbor_positions@.len() as int)
                    =~= neighbor_positions@);
            } else {
                assert(!chord_applies(g, position));
            }
        }
    }

    /// Toggles the flag on a covered or flagged cell; a revealed cell stays.
    pub fn flag(&mut self, position: Position)
        requires
            old(self).wf(),
            old(self).in_bounds(position),
        ensures
            final(self).width == old(self).width,
            final(self).height == old(self).height,
            final(self).cells() == flag_result(*old(self), position),
    {
        let cell = self.get_mut(position);
        match cell.state {
            CellState::Covered => cell.state = CellState::Flagged,
            CellState::Revealed => (),
            CellState::Flagged => cell.state = CellState::Covered,
        }
    }

    /// Replaces every cell's content by the content of the cell at the same
    /// index of `minesweeper_grid`, keeping what the player sees.
    pub fn update_content(&mut self, minesweeper_grid: Grid<Cell>)
        ensures
            final(self).width == old(self).width,
            final(self).height == old(self).height,
            final(self).cells().len() == if old(self).cells().len()
                <= minesweeper_grid.cells().len() {
                old(self).cells().len()
            } else {
                minesweeper_grid.cells().len()
            },
            forall|i: int|
                0 <= i < final(self).cells().len() ==> #[trigger] final(self).cells()[i] == (Cell {
                    content: minesweeper_grid.cells()[i].content,
                    state: old(self).cells()[i].state,
                }),
    {
        let old_cells = self.iter();
        let new_cells = minesweeper_grid.iter();
        let n = if old_cells.len() <= new_cells.len() {
            old_cells.len()
        } else {
            new_cells.len()
        };
        let mut cells: Vec<Cell> = Vec::new();
        let mut i: usize = 0;
        while i < n
            invariant
                old_cells@ == self.cells(),
                new_cells@ == minesweeper_grid.cells(),
                n <= old_cells@.len(),
                n <= new_cells@.len(),
                i <= n,
                cells@.len() == i,
                forall|j: int|
                    0 <= j < i ==> #[trigger] cells@[j] == (Cell {
                        content: new_cells@[j].content,
                        state: old_cells@[j].state,
                    }),
            decreases n - i,
        {
            cells.push(Cell { content: new_cells[i].content, state: old_cells[i].state });
            i = i + 1;
        }
        self.set_cells(cells);
    }

    /// Whether no more cells are hidden than there are mines.
    pub fn is_solved(&self) -> (r: bool)
        ensures
            r == solved(self.cells()),
    {
        self.count_covered_or_flagged() <= self.count_mines()
    }

    /// The board of covered cells whose mines are the positions in `mine_positions`.
    pub fn from_mine_positions(width: usize, height: usize, mine_positions: &Vec<Position>) -> (g:
        Grid<Cell>)
        requires
            width * height <= usize::MAX,
            forall|k: int|
                0 <= k < mine_positions@.len() ==> #[trigger] in_grid(
                    width,
                    height,
                    mine_positions@[k],
                ),
        ensures
            g.wf(),
            g.width == width,
            g.height == height,
            forall|i: int|
                0 <= i < g.cells().len() ==> #[trigger] g.cells()[i] == covered(
                    layout_content(
                        width,
                        height,
                        positions_layout(mine_positions@),
                        position_of(width, i),
                    ),
                ),
    {
        let mut bit_grid = BitGrid::empty(width, height);
        assert forall|q: Position| in_grid(width, height, q) implies (#[trigger] bit_grid.at(q)
            <==> mine_positions@.take(0).contains(q)) by {
            lemma_index_in_range(width, height, q);
        }
        let mut k: usize = 0;
        while k < mine_positions.len()
            invariant
                bit_grid.wf(),
                bit_grid.width == width,
                bit_grid.height == height,
                k <= mine_positions@.len(),
                forall|k: int|
                    0 <= k < mine_positions@.len() ==> #[trigger] in_grid(
                        width,
                        height,
                        mine_positions@[k],
                    ),
                forall|q: Position|
                    in_grid(width, height, q) ==> (#[trigger] bit_grid.at(q)
                        <==> mine_positions@.take(k as int).contains(q)),
            decreases mine_positions@.len() - k,
        {
            let mp = mine_positions[k];
            proof {
                lemma_index_in_range(width, height, mp);
            }
            let ghost before = bit_grid;
            bit_grid.set(mp, true);
            assert forall|q: Position| in_grid(width, height, q) implies (#[trigger] bit_grid.at(q)
                <==> mine_positions@.take(k as int + 1).contains(q)) by {
                lemma_index_in_range(width, height, q);
                let prev = mine_positions@.take(k as int);
                let next = mine_positions@.take(k as int + 1);
                assert(next =~= prev.push(mp));
                if q != mp {
                    if index_of(width, q) == index_of(width, mp) {
                        crate::grid::lemma_index_injective(width, height, q, mp);
                    }
                    assert(bit_grid.at(q) == before.at(q));
                    if prev.contains(q) {
                        let j = choose|j: int| 0 <= j < prev.len() && prev[j] == q;
                        assert(next[j] == q);
                    }
                    if next.contains(q) {
                        let j = choose|j: int| 0 <= j < next.len() && next[j] == q;
                        assert(prev[j] == q);
                    }
                } else {
                    assert(next[k as int] == q);
                }
            }
            k = k + 1;
        }
        assert(mine_positions@.take(mine_positions@.len() as int) =~= mine_positions@);
        let g = Self::from_bit_grid(&bit_grid);
        assert forall|i: int| 0 <= i < g.cells().len() implies #[trigger] g.cells()[i] == covered(
            layout_content(width, height, positions_layout(mine_positions@), position_of(width, i)),
        ) by {
            let p = position_of(width, i);
            lemma_position_in_range(width, height, i);
            lemma_same_layout_content(width, height, marked_in(bit_grid), positions_layout(mine_positions@), p);
        }
        g
    }

    /// The board as the text that the solver reads: one line per column of
    /// the board, one character per cell (`x` covered, `*` flagged or mine,
    /// the digit of an open cell).
    pub fn to_minesweeprs_string(&self) -> (r: String)
        requires
            self.wf(),
            forall|i: int| 0 <= i < self.cells().len() ==> has_printable_number(#[trigger] self.cells()[i]),
        ensures
            r@ == minesweeprs_text(*self, self.width as int),
    {
        let mut res = String::new();
        let mut x: usize = 0;
        while x < self.width
            invariant
                self.wf(),
                forall|i: int| 0 <= i < self.cells().len() ==> has_printable_number(#[trigger] self.cells()[i]),
                x <= self.width,
                res@ == minesweeprs_text(*self, x as int),
            decreases self.width - x,
        {
            let ghost before = res@;
            let mut y: usize = 0;
            while y < self.height
                invariant
                    self.wf(),
                    forall|i: int| 0 <= i < self.cells().len() ==> has_printable_number(#[trigger] self.cells()[i]),
                    x < self.width,
                    y <= self.height,
                    res@ == before + minesweeprs_column(*self, x, y as int),
                decreases self.height - y,
            {
                let position = Position { x, y };
                proof {
                    lemma_index_in_range(self.width, self.height, position);
                }
                let cell = self.get(position);
                push_char(&mut res, cell.get_minesweeprs_char());
                assert(res@ =~= before + minesweeprs_column(*self, x, y as int + 1));
                y = y + 1;
            }
            push_char(&mut res, '\n');
            x = x + 1;
        }
        res
    }

    /// The board as text: its drawing, then its width, height, number of
    /// mines and number of flags.
    pub fn to_display_string(&self) -> (r: String)
        requires
            self.wf(),
        ensures
            r@ == board_text(*self),
    {
        let symbol = |position: Position| -> (s: String)
            requires
                self.wf(),
                self.in_bounds(position),
            ensures
                s@ == cell_symbol(self.at(position)),
            {
                let theme = crate::grid::cell_theme();
                let cell = self.get(position);
                match cell.state {
                    CellState::Covered => String::from_str(theme.covered),
                    CellState::Flagged => String::from_str(theme.flag),
                    CellState::Revealed => match cell.content {
                        CellContent::Empty => String::from_str(theme.empty),
                        CellContent::Mine => String::from_str(theme.mine),
                        CellContent::Number(n) => decimal_string(n as usize),
                    },
                }
            };
        let drawing = self.draw_grid(symbol);
        let mut out = String::from_str(drawing.as_str());
        proof {
            let syms = choose|syms: Seq<String>|
                {
                    &&& syms.len() == self.width * self.height
                    &&& forall|x: int, y: int|
                        0 <= x < self.width && 0 <= y < self.height ==> call_ensures(
                            symbol,
                            (Position { x: x as usize, y: y as usize },),
                            #[trigger] syms[y * self.width + x],
                        )
                    &&& drawing@ == crate::grid::grid_text(
                        self.width as int,
                        self.height as int,
                        syms.map_values(|s: String| s@),
                    )
                };
            let views = syms.map_values(|s: String| s@);
            let f = |p: Position| cell_symbol(self.at(p));
            assert forall|x: int, y: int| 0 <= x < self.width && 0 <= y < self.height implies #[trigger] views[y
                * self.width + x] == f(Position { x: x as usize, y: y as usize }) by {
                lemma_index_in_range(self.width, self.height, Position { x: x as usize, y: y as usize });
                assert(call_ensures(symbol, (Position { x: x as usize, y: y as usize },), syms[y * self.width + x]));
            }
            crate::grid::lemma_symbols_row_major(self.width, self.height, views, f);
            assert(views =~= Seq::new(
                (self.width * self.height) as nat,
                |i: int| cell_symbol(self.at(position_of(self.width, i))),
            ));
        }
        out.append("\n");
        out.append("\nWidth: ");
        out.append(decimal_string(self.width).as_str());
        out.append("\n");
        out.append("Height: ");
        out.append(decimal_string(self.height).as_str());
        out.append("\n");
        out.append("Mines: ");
        out.append(decimal_string(self.count_mines()).as_str());
        out.append("\n");
        out.append("Flags: ");
        out.append(decimal_string(self.count_flags()).as_str());
        out.append("\n");
        out
    }

    /// Reveals every covered mine; flagged cells stay flagged.
    pub fn reveal_mines(&mut self)
        ensures
            final(self).width == old(self).width,
            final(self).height == old(self).height,
            final(self).cells().len() == old(self).cells().len(),
            forall|i: int|
                0 <= i < old(self).cells().len() ==> #[trigger] final(self).cells()[i] == if old(
                    self,
                ).cells()[i].content == CellContent::Mine {
                    revealed_cell(old(self).cells()[i])
                } else {
                    old(self).cells()[i]
                },
    {
        let ghost start = self.cells();
        let n = self.cells.len();
        let mut i: usize = 0;
        while i < n
            invariant
                n == start.len(),
                self.cells().len() == n,
                self.width == old(self).width,
                self.height == old(self).height,
                start == old(self).cells(),
                i <= n,
                forall|j: int|
                    0 <= j < n ==> #[trigger] self.cells()[j] == if j < i && start[j].content
                        == CellContent::Mine {
                        revealed_cell(start[j])
                    } else {
                        start[j]
                    },
            decreases n - i,
        {
            let mut cell = self.cells[i];
            if cell.content == CellContent::Mine {
                cell.uncover();
            }
            self.cells.set(i, cell);
            i = i + 1;
        }
    }
}

/// The text of column `x` of `g`, rows `0..rows`, as the solver reads it.
pub open spec fn minesweeprs_column(g: Grid<Cell>, x: usize, rows: int) -> Seq<char>
    decreases rows,
{
    if rows <= 0 {
        Seq::empty()
    } else {
        minesweeprs_column(g, x, rows - 1).push(
            minesweeprs_char(g.at(Position { x, y: (rows - 1) as usize })),
        )
    }
}

/// The board text that the solver reads, for columns `0..cols` of `g`: each
/// column of the board becomes one line.
pub open spec fn minesweeprs_text(g: Grid<Cell>, cols: int) -> Seq<char>
    decreases cols,
{
    if cols <= 0 {
        Seq::empty()
    } else {
        (minesweeprs_text(g, cols - 1) + minesweeprs_column(g, (cols - 1) as usize, g.height as int)).push(
            '\n',
        )
    }
}

/// The symbol by which a cell is drawn: `#` covered, `F` flagged; once
/// revealed, a space, `M` for a mine or the cell's number.
pub open spec fn cell_symbol(c: Cell) -> Seq<char> {
    match c.state {
        CellState::Covered => "#"@,
        CellState::Flagged => "F"@,
        CellState::Revealed => match c.content {
            CellContent::Empty => " "@,
            CellContent::Mine => "M"@,
            CellContent::Number(n) => decimal(n as usize),
        },
    }
}

/// The text of a board: its drawing, then its size, its number of mines and
/// its number of flags, one per line.
pub open spec fn board_text(g: Grid<Cell>) -> Seq<char> {
    crate::grid::grid_text(
        g.width as int,
        g.height as int,
        Seq::new((g.width * g.height) as nat, |i: int| cell_symbol(g.at(position_of(g.width, i)))),
    ) + "\n"@ + "\nWidth: "@ + decimal(g.width) + "\n"@ + "Height: "@ + decimal(g.height) + "\n"@
        + "Mines: "@ + decimal(count_cells(g.cells(), CellFilter::Mine) as usize) + "\n"@ + "Flags: "@
        + decimal(count_cells(g.cells(), CellFilter::Flagged) as usize) + "\n"@
}

/// Whether a mark is unset.
pub open spec fn is_unset() -> spec_fn(bool) -> bool {
    |b: bool| !b
}

proof fn lemma_contains_after_pop(s: Seq<Position>, b: Position)
    requires
        s.len() > 0,
        s.contains(b),
        b != s.last(),
    ensures
        s.drop_last().contains(b),
{
    let j = choose|j: int| 0 <= j < s.len() && s[j] == b;
    assert(s.drop_last()[j] == b);
}

proof fn lemma_contains_in_prefix(s: Seq<Position>, t: Seq<Position>, b: Position)
    requires
        s.contains(b),
        t.len() >= s.len(),
        forall|k: int| 0 <= k < s.len() ==> t[k] == s[k],
    ensures
        t.contains(b),
{
    let j = choose|j: int| 0 <= j < s.len() && s[j] == b;
    assert(t[j] == b);
}

/// When every element of `s` fails `f`, none is counted.
pub proof fn lemma_count_none<A>(s: Seq<A>, f: spec_fn(A) -> bool)
    requires
        forall|j: int| 0 <= j < s.len() ==> !f(#[trigger] s[j]),
    ensures
        count_in(s, f) == 0,
    decreases s.len(),
{
    if s.len() > 0 {
        assert forall|j: int| 0 <= j < s.drop_last().len() implies !f(#[trigger] s.drop_last()[j]) by {
            assert(s.drop_last()[j] == s[j]);
        }
        lemma_count_none(s.drop_last(), f);
    }
}

/// Two layouts that agree on the board give every cell the same content.
pub proof fn lemma_same_layout_content(
    w: usize,
    h: usize,
    a: spec_fn(Position) -> bool,
    b: spec_fn(Position) -> bool,
    p: Position,
)
    requires
        in_grid(w, h, p),
        forall|q: Position| in_grid(w, h, q) ==> a(q) == b(q),
    ensures
        layout_content(w, h, a, p) == layout_content(w, h, b, p),
{
    let s = neighbor_seq(w, h, p);
    lemma_neighbors_in_grid(w, h, p);
    assert forall|j: int| 0 <= j < s.len() implies a(#[trigger] s[j]) == b(s[j]) by {
        assert(in_grid(w, h, s[j]));
    }
    crate::grid::lemma_count_same(s, a, b);
}

/// Counts of two sequences agree when their elements agree one by one.
pub proof fn lemma_count_pointwise<A, B>(
    s: Seq<A>,
    f: spec_fn(A) -> bool,
    t: Seq<B>,
    g: spec_fn(B) -> bool,
)
    requires
        s.len() == t.len(),
        forall|i: int| 0 <= i < s.len() ==> f(#[trigger] s[i]) == g(t[i]),
    ensures
        count_in(s, f) == count_in(t, g),
    decreases s.len(),
{
    if s.len() > 0 {
        assert forall|i: int| 0 <= i < s.drop_last().len() implies f(#[trigger] s.drop_last()[i])
            == g(t.drop_last()[i]) by {
            assert(s.drop_last()[i] == s[i] && t.drop_last()[i] == t[i]);
        }
        lemma_count_pointwise(s.drop_last(), f, t.drop_last(), g);
    }
}

/// When `f` implies `g` on every element, `g` counts at least as many, and
/// exactly as many only if the two agree on every element.
pub proof fn lemma_count_weaker<A>(s: Seq<A>, f: spec_fn(A) -> bool, g: spec_fn(A) -> bool)
    requires
        forall|i: int| 0 <= i < s.len() ==> f(#[trigger] s[i]) ==> g(s[i]),
    ensures
        count_in(s, f) <= count_in(s, g),
        count_in(s, f) == count_in(s, g) ==> forall|i: int|
            0 <= i < s.len() ==> g(#[trigger] s[i]) ==> f(s[i]),
    decreases s.len(),
{
    if s.len() > 0 {
        let t = s.drop_last();
        assert forall|i: int| 0 <= i < t.len() && f(#[trigger] t[i]) implies g(t[i]) by {
            assert(t[i] == s[i]);
        }
        lemma_count_weaker(t, f, g);
        if count_in(s, f) == count_in(s, g) {
            assert forall|i: int| 0 <= i < s.len() && g(#[trigger] s[i]) implies f(s[i]) by {
                if i < s.len() - 1 {
                    assert(t[i] == s[i]);
                }
            }
        }
    }
}

/// Law: a chord changes nothing unless the cell shows a number and exactly
/// that many of its neighbours carry a flag; with fewer or more flags the
/// board stays as it was.
pub proof fn lemma_chord_needs_exact_flags(g: Grid<Cell>, p: Position)
    ensures
        !(g.at(p).content is Number) || count_in(
            neighbor_seq(g.width, g.height, p),
            |q: Position| g.at(q).state == CellState::Flagged,
        ) != g.at(p).content->Number_0 ==> chord_result(g, p) == g.cells(),
{
    assert(flagged_in(g) =~= |q: Position| g.at(q).state == CellState::Flagged);
}

/// Law: a chord on a number with exactly that many flagged neighbours opens
/// every covered neighbour, leaves flags in place and changes no content.
pub proof fn lemma_chord_opens_covered_neighbours(g: Grid<Cell>, p: Position)
    requires
        g.wf(),
        g.at(p).content is Number,
        count_in(
            neighbor_seq(g.width, g.height, p),
            |q: Position| g.at(q).state == CellState::Flagged,
        ) == g.at(p).content->Number_0,
    ensures
        chord_result(g, p).len() == g.cells().len(),
        forall|q: Position|
            #[trigger] neighbor_seq(g.width, g.height, p).contains(q) ==> {
                let after = chord_result(g, p)[index_of(g.width, q)];
                &&& after.content == g.at(q).content
                &&& g.at(q).state == CellState::Covered ==> after.state == CellState::Revealed
                &&& g.at(q).state == CellState::Flagged ==> after.state == CellState::Flagged
            },
{
    let w = g.width;
    let h = g.height;
    assert(flagged_in(g) =~= |q: Position| g.at(q).state == CellState::Flagged);
    let s = neighbor_seq(w, h, p);
    lemma_neighbors_in_grid(w, h, p);
    assert forall|q: Position| #[trigger] s.contains(q) implies {
        let after = chord_result(g, p)[index_of(w, q)];
        &&& after.content == g.at(q).content
        &&& g.at(q).state == CellState::Covered ==> after.state == CellState::Revealed
        &&& g.at(q).state == CellState::Flagged ==> after.state == CellState::Flagged
    } by {
        let j = choose|j: int| 0 <= j < s.len() && s[j] == q;
        assert(in_grid(w, h, s[j]));
        lemma_index_in_range(w, h, q);
    }
}

/// Law: flagging the same cell twice leaves the board as it was.
pub proof fn lemma_flag_twice_restores(g1: Grid<Cell>, g2: Grid<Cell>, p: Position)
    requires
        g1.wf(),
        g1.in_bounds(p),
        g2.width == g1.width,
        g2.height == g1.height,
        g2.cells() == flag_result(g1, p),
    ensures
        flag_result(g2, p) == g1.cells(),
{
    lemma_index_in_range(g1.width, g1.height, p);
    assert(flag_result(g2, p) =~= g1.cells());
}

/// Law: the board built from a mine layout has as many mines as the layout
/// has marks.
pub proof fn lemma_board_mines_are_marks(b: Grid<bool>, g: Grid<Cell>)
    requires
        b.wf(),
        g.cells().len() == b.cells().len(),
        forall|i: int|
            0 <= i < g.cells().len() ==> #[trigger] g.cells()[i] == covered(
                layout_content(b.width, b.height, marked_in(b), position_of(b.width, i)),
            ),
    ensures
        count_cells(g.cells(), CellFilter::Mine) == count_in(b.cells(), crate::bit_grid::is_set()),
{
    assert forall|i: int| 0 <= i < g.cells().len() implies CellFilter::Mine.pred()(
        #[trigger] g.cells()[i],
    ) == crate::bit_grid::is_set()(b.cells()[i]) by {
        lemma_position_in_range(b.width, b.height, i);
    }
    lemma_count_pointwise(g.cells(), CellFilter::Mine.pred(), b.cells(), crate::bit_grid::is_set());
}

/// Law: while no mine is open, the board is solved exactly when every cell
/// without a mine is revealed.
pub proof fn lemma_solved_iff_safe_cells_open(cells: Seq<Cell>)
    requires
        count_cells(cells, CellFilter::RevealedMine) == 0,
    ensures
        solved(cells) <==> forall|i: int|
            0 <= i < cells.len() && (#[trigger] cells[i]).content != CellContent::Mine
                ==> cells[i].state == CellState::Revealed,
{
    let mine = CellFilter::Mine.pred();
    let hidden = CellFilter::CoveredOrFlagged.pred();
    crate::grid::lemma_count_zero(cells, CellFilter::RevealedMine.pred());
    assert forall|i: int| 0 <= i < cells.len() && mine(#[trigger] cells[i]) implies hidden(
        cells[i],
    ) by {
        assert(!CellFilter::RevealedMine.pred()(cells[i]));
    }
    lemma_count_weaker(cells, mine, hidden);
    if forall|i: int|
        0 <= i < cells.len() && (#[trigger] cells[i]).content != CellContent::Mine
            ==> cells[i].state == CellState::Revealed {
        assert forall|i: int| 0 <= i < cells.len() && hidden(#[trigger] cells[i]) implies mine(
            cells[i],
        ) by {}
        lemma_count_weaker(cells, hidden, mine);
    }
}

/// Whether each cell of a board `w` wide with `n` cells is listed in `mines`.
pub open spec fn mine_marks(w: usize, n: nat, mines: Seq<Position>) -> Seq<bool> {
    Seq::new(n, |i: int| mines.contains(position_of(w, i)))
}

proof fn lemma_mine_marks_count(w: usize, h: usize, mines: Seq<Position>)
    requires
        mines.no_duplicates(),
        forall|k: int| 0 <= k < mines.len() ==> #[trigger] in_grid(w, h, mines[k]),
    ensures
        count_in(mine_marks(w, (w * h) as nat, mines), crate::bit_grid::is_set()) == mines.len(),
    decreases mines.len(),
{
    let n = (w * h) as nat;
    if mines.len() == 0 {
        lemma_count_none(mine_marks(w, n, mines), crate::bit_grid::is_set());
    } else {
        let ms = mines.drop_last();
        let m = mines.last();
        assert forall|k: int| 0 <= k < ms.len() implies #[trigger] in_grid(w, h, ms[k]) by {
            assert(ms[k] == mines[k]);
        }
        lemma_mine_marks_count(w, h, ms);
        assert(in_grid(w, h, mines[mines.len() - 1]));
        lemma_index_in_range(w, h, m);
        let idx = index_of(w, m);
        let old_marks = mine_marks(w, n, ms);
        assert(!ms.contains(m)) by {
            if ms.contains(m) {
                let j = choose|j: int| 0 <= j < ms.len() && ms[j] == m;
                assert(mines[j] == mines[mines.len() - 1]);
            }
        }
        assert(mines =~= ms.push(m));
        assert forall|i: int| 0 <= i < n implies #[trigger] mine_marks(w, n, mines)[i]
            == old_marks.update(idx, true)[i] by {
            lemma_position_in_range(w, h, i);
            let q = position_of(w, i);
            if i == idx {
                assert(mines[mines.len() - 1] == q);
            } else {
                assert(q != m);
                if mines.contains(q) {
                    let j = choose|j: int| 0 <= j < mines.len() && mines[j] == q;
                    assert(ms[j] == q);
                }
                if ms.contains(q) {
                    let j = choose|j: int| 0 <= j < ms.len() && ms[j] == q;
                    assert(mines[j] == q);
                }
            }
        }
        assert(mine_marks(w, n, mines) =~= old_marks.update(idx, true));
        crate::grid::lemma_count_update(old_marks, crate::bit_grid::is_set(), idx, true);
    }
}

/// Law: a board laid from distinct positions has exactly one mine per position.
pub proof fn lemma_mine_board_count(w: usize, h: usize, mines: Seq<Position>)
    requires
        mines.no_duplicates(),
        forall|k: int| 0 <= k < mines.len() ==> #[trigger] in_grid(w, h, mines[k]),
    ensures
        count_cells(mine_board(w, h, mines), CellFilter::Mine) == mines.len(),
{
    let n = (w * h) as nat;
    lemma_mine_marks_count(w, h, mines);
    assert forall|i: int| 0 <= i < n implies CellFilter::Mine.pred()(
        #[trigger] mine_board(w, h, mines)[i],
    ) == crate::bit_grid::is_set()(mine_marks(w, n, mines)[i]) by {}
    lemma_count_pointwise(
        mine_board(w, h, mines),
        CellFilter::Mine.pred(),
        mine_marks(w, n, mines),
        crate::bit_grid::is_set(),
    );
}

} // verus!
