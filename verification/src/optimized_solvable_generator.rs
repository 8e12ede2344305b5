use vstd::prelude::*;
use crate::bit_grid::BitGrid;
use crate::cell::{Cell, CellContent};
use crate::flood::flood_result;
use crate::grid::{Grid, Position, eligible_prefix, in_grid, is_allowed, is_forbidden, lemma_eligible_prefix};
use crate::minesweeper_grid::{
    CellFilter, count_cells, lemma_count_none, lemma_count_pointwise, lemma_mine_board_count,
    MinesweeperGrid, clear_around, covered, is_consistent, mine_board, mine_in, positions_layout,
    lemma_layout_board_consistent,
};
use crate::rng::{pick_with_seed, seeded_pick};

verus! {

/// Adds mines one at a time, each at a random allowed cell, and keeps a mine
/// only when the solver can still clear the board with it; a mine that the
/// solver cannot handle waits aside until another mine is kept. When no cell
/// is left to try, it starts again from an empty board.
pub struct OptimizedSolvableGenerator {
    pub num_mines: usize,
    pub seed: u64,
}

/// `g` is the board whose mines are `mines`, laid on a `w` by `h` board,
/// with the first click on `pressed` played.
pub open spec fn is_opened_board(
    g: Grid<Cell>,
    w: usize,
    h: usize,
    pressed: Position,
    mines: Seq<Position>,
) -> bool {
    exists|laid: Grid<Cell>|
        {
            &&& #[trigger] laid.wf()
            &&& laid.width == w
            &&& laid.height == h
            &&& laid.cells() == mine_board(w, h, mines)
            &&& g.cells() == flood_result(laid, pressed)
        }
}

/// The positions that `s` lists are allowed, and `s` lists none twice.
pub open spec fn allowed_distinct(w: usize, h: usize, p: Position, s: Seq<Position>) -> bool {
    &&& s.no_duplicates()
    &&& forall|x: Position| #[trigger] s.contains(x) ==> is_allowed(w, h, p, x)
}

/// `a` and `b` list no position in common.
pub open spec fn disjoint(a: Seq<Position>, b: Seq<Position>) -> bool {
    forall|x: Position| #![trigger a.contains(x), b.contains(x)] !(a.contains(x) && b.contains(x))
}

/// One run of the optimized generator for a first click on a board. Whoever
/// runs it asks for a candidate, has the solver judge it, and records the
/// verdict, until the run is done.
pub struct OptimizedGeneration {
    width: usize,
    height: usize,
    pressed_position: Position,
    num_mines: usize,
    seed: u64,
    picks: Vec<usize>,
    eligible: Vec<Position>,
    current: Vec<Position>,
    rejected: Vec<Position>,
    mines: Vec<Position>,
    grid: MinesweeperGrid,
    pending: bool,
    approved: Ghost<bool>,
}

proof fn lemma_swap_remove(s: Seq<Position>, i: int)
    requires
        s.no_duplicates(),
        0 <= i < s.len(),
    ensures
        s.update(i, s.last()).drop_last().no_duplicates(),
        forall|x: Position| #[trigger] s.update(i, s.last()).drop_last().contains(x) <==> (s.contains(x)
            && x != s[i]),
{
    let t = s.update(i, s.last()).drop_last();
    let n = s.len();
    assert forall|x: Position| #[trigger] t.contains(x) <==> (s.contains(x) && x != s[i]) by {
        if t.contains(x) {
            let j = choose|j: int| 0 <= j < t.len() && t[j] == x;
            if j == i {
                assert(s[n - 1] == x);
            } else {
                assert(s[j] == x);
            }
        }
        if s.contains(x) && x != s[i] {
            let j = choose|j: int| 0 <= j < n && s[j] == x;
            if j == n - 1 {
                assert(t[i] == x);
            } else {
                assert(t[j] == x);
            }
        }
    }
}

proof fn lemma_push_contains(s: Seq<Position>, a: Position)
    ensures
        forall|x: Position| #[trigger] s.push(a).contains(x) <==> (s.contains(x) || x == a),
{
    assert forall|x: Position| #[trigger] s.push(a).contains(x) <==> (s.contains(x) || x == a) by {
        if s.contains(x) {
            let j = choose|j: int| 0 <= j < s.len() && s[j] == x;
            assert(s.push(a)[j] == x);
        }
        if x == a {
            assert(s.push(a)[s.len() as int] == x);
        }
        if s.push(a).contains(x) {
            let j = choose|j: int| 0 <= j < s.len() + 1 && s.push(a)[j] == x;
            if j < s.len() {
                assert(s[j] == x);
            }
        }
    }
}

proof fn lemma_push_no_duplicates(s: Seq<Position>, a: Position)
    requires
        s.no_duplicates(),
        !s.contains(a),
    ensures
        s.push(a).no_duplicates(),
{
    let t = s.push(a);
    assert forall|i: int, j: int| 0 <= i < j < t.len() implies t[i] != t[j] by {
        if j == s.len() {
            assert(s.contains(t[i]));
        } else {
            assert(t[i] == s[i] && t[j] == s[j]);
        }
    }
}

proof fn lemma_drop_last_contains(s: Seq<Position>)
    requires
        s.no_duplicates(),
        s.len() > 0,
    ensures
        s.drop_last().no_duplicates(),
        forall|x: Position| #[trigger] s.drop_last().contains(x) <==> (s.contains(x) && x != s.last()),
{
    let t = s.drop_last();
    assert forall|x: Position| #[trigger] t.contains(x) <==> (s.contains(x) && x != s.last()) by {
        if t.contains(x) {
            let j = choose|j: int| 0 <= j < t.len() && t[j] == x;
            assert(s[j] == x);
        }
        if s.contains(x) && x != s.last() {
            let j = choose|j: int| 0 <= j < s.len() && s[j] == x;
            assert(t[j] == x);
        }
    }
}

proof fn lemma_append_contains(a: Seq<Position>, b: Seq<Position>)
    requires
        a.no_duplicates(),
        b.no_duplicates(),
        disjoint(a, b),
    ensures
        (a + b).no_duplicates(),
        forall|x: Position| #[trigger] (a + b).contains(x) <==> (a.contains(x) || b.contains(x)),
{
    let c = a + b;
    assert forall|x: Position| #[trigger] c.contains(x) <==> (a.contains(x) || b.contains(x)) by {
        if c.contains(x) {
            let j = choose|j: int| 0 <= j < c.len() && c[j] == x;
            if j < a.len() {
                assert(a[j] == x);
            } else {
                assert(b[j - a.len()] == x);
            }
        }
        if a.contains(x) {
            let j = choose|j: int| 0 <= j < a.len() && a[j] == x;
            assert(c[j] == x);
        }
        if b.contains(x) {
            let j = choose|j: int| 0 <= j < b.len() && b[j] == x;
            assert(c[a.len() + j] == x);
        }
    }
    assert forall|i: int, j: int| 0 <= i < j < c.len() implies c[i] != c[j] by {
        if j < a.len() {
        } else if i >= a.len() {
            assert(c[i] == b[i - a.len()] && c[j] == b[j - a.len()]);
        } else {
            assert(a.contains(c[i]));
            assert(b.contains(c[j]));
        }
    }
}

/// A copy of `v`.
fn copy_positions(v: &Vec<Position>) -> (r: Vec<Position>)
    ensures
        r@ == v@,
{
    let mut r: Vec<Position> = Vec::new();
    let mut i: usize = 0;
    while i < v.len()
        invariant
            i <= v@.len(),
            r@ == v@.take(i as int),
        decreases v@.len() - i,
    {
        r.push(v[i]);
        assert(v@.take(i as int + 1) =~= v@.take(i as int).push(v@[i as int]));
        i = i + 1;
    }
    assert(v@.take(v@.len() as int) =~= v@);
    r
}

impl OptimizedGeneration {
    pub closed spec fn width(&self) -> usize {
        self.width
    }

    pub closed spec fn height(&self) -> usize {
        self.height
    }

    pub closed spec fn pressed_position(&self) -> Position {
        self.pressed_position
    }

    pub closed spec fn num_mines(&self) -> usize {
        self.num_mines
    }

    /// The seed of the run's stream.
    pub closed spec fn seed(&self) -> u64 {
        self.seed
    }

    /// The lengths of the ranges that the run has drawn indices from so far,
    /// in order.
    pub closed spec fn picks(&self) -> Seq<usize> {
        self.picks@
    }

    /// The mines laid so far.
    pub closed spec fn mines(&self) -> Seq<Position> {
        self.mines@
    }

    /// The cells still to try for the next mine.
    pub closed spec fn to_try(&self) -> Seq<Position> {
        self.current@
    }

    /// The cells whose mine the solver could not handle, set aside until a
    /// mine is kept.
    pub closed spec fn set_aside(&self) -> Seq<Position> {
        self.rejected@
    }

    /// The board of the last candidate.
    pub closed spec fn board(&self) -> Grid<Cell> {
        self.grid
    }

    /// A candidate awaits the solver's verdict.
    pub closed spec fn is_pending(&self) -> bool {
        self.pending
    }

    /// The board of the last candidate is the board of the mines laid so far,
    /// and the solver approved it.
    pub closed spec fn is_approved(&self) -> bool {
        self.approved@
    }

    pub closed spec fn wf(&self) -> bool {
        let w = self.width;
        let h = self.height;
        let p = self.pressed_position;
        &&& w * h <= usize::MAX
        &&& in_grid(w, h, p)
        &&& self.eligible@ == eligible_prefix(w, h, p, w * h)
        &&& allowed_distinct(w, h, p, self.current@)
        &&& allowed_distinct(w, h, p, self.rejected@)
        &&& allowed_distinct(w, h, p, self.mines@)
        &&& disjoint(self.current@, self.rejected@)
        &&& disjoint(self.current@, self.mines@)
        &&& disjoint(self.rejected@, self.mines@)
        &&& self.mines@.len() <= self.num_mines
        &&& forall|k: int| 0 <= k < self.picks@.len() ==> #[trigger] self.picks@[k] > 0
        &&& self.grid.wf()
        &&& self.grid.width == w
        &&& self.grid.height == h
        &&& self.pending ==> self.mines@.len() > 0 && is_opened_board(self.grid, w, h, p, self.mines@)
        &&& self.approved@ ==> !self.pending && is_opened_board(self.grid, w, h, p, self.mines@)
        &&& !self.pending && self.mines@.len() >= self.num_mines && self.num_mines > 0
            ==> self.approved@
        &&& self.num_mines == 0 ==> forall|i: int|
            0 <= i < self.grid.cells().len() ==> #[trigger] self.grid.cells()[i] == covered(
                CellContent::Empty,
            )
    }

    /// The run is done once the wanted number of mines is laid.
    pub fn is_done(&self) -> (r: bool)
        ensures
            r == (self.mines().len() >= self.num_mines()),
    {
        self.mines.len() >= self.num_mines
    }

    /// Lays one more mine at a random cell still to try and opens the first
    /// click on the new board, the candidate; returns whether it did. With no
    /// cell left to try, it takes up every mine and starts over instead.
    pub fn next_candidate(&mut self) -> (r: bool)
        requires
            old(self).wf(),
            !old(self).is_pending(),
            old(self).mines().len() < old(self).num_mines(),
        ensures
            final(self).wf(),
            final(self).width() == old(self).width(),
            final(self).height() == old(self).height(),
            final(self).pressed_position() == old(self).pressed_position(),
            final(self).num_mines() == old(self).num_mines(),
            final(self).is_pending() == r,
            !final(self).is_approved(),
            r == (old(self).to_try().len() > 0),
            !r ==> {
                &&& final(self).mines().len() == 0
                &&& final(self).set_aside().len() == 0
                &&& final(self).to_try() == eligible_prefix(
                    old(self).width(),
                    old(self).height(),
                    old(self).pressed_position(),
                    old(self).width() * old(self).height(),
                )
            },
            final(self).seed() == old(self).seed(),
            !r ==> final(self).picks() == old(self).picks(),
            r ==> final(self).picks() == old(self).picks().push(old(self).to_try().len() as usize),
            r ==> {
                let i = seeded_pick(old(self).seed(), final(self).picks()) as int;
                &&& 0 <= i < old(self).to_try().len()
                &&& final(self).to_try() == old(self).to_try().update(
                    i,
                    old(self).to_try().last(),
                ).drop_last()
                &&& final(self).mines() == old(self).mines().push(old(self).to_try()[i])
            },
            r ==> final(self).set_aside() == old(self).set_aside(),
            r ==> is_opened_board(
                final(self).board(),
                old(self).width(),
                old(self).height(),
                old(self).pressed_position(),
                final(self).mines(),
            ),
    {
        let ghost w = self.width;
        let ghost h = self.height;
        let ghost p = self.pressed_position;
        if self.current.len() == 0 {
            self.mines.clear();
            self.rejected.clear();
            self.current = copy_positions(&self.eligible);
            self.approved = Ghost(false);
            proof {
                lemma_eligible_prefix(w, h, p, (w * h) as int);
                assert forall|x: Position| #[trigger] self.current@.contains(x) implies is_allowed(w, h, p, x) by {
                    let j = choose|j: int| 0 <= j < self.current@.len() && self.current@[j] == x;
                    assert(is_allowed(w, h, p, eligible_prefix(w, h, p, w * h)[j]));
                }
            }
            return false;
        }
        let ghost old_current = self.current@;
        let ghost old_mines = self.mines@;
        let ghost old_picks = self.picks@;
        self.picks.push(self.current.len());
        assert forall|k: int| 0 <= k < self.picks@.len() implies #[trigger] self.picks@[k] > 0 by {
            if k < old_picks.len() {
                assert(self.picks@[k] == old_picks[k]);
            }
        }
        let idx = pick_with_seed(self.seed, &self.picks);
        let pos = self.current.swap_remove(idx);
        proof {
            lemma_swap_remove(old_current, idx as int);
            assert(old_current.contains(old_current[idx as int]));
        }
        self.mines.push(pos);
        proof {
            lemma_push_contains(old_mines, pos);
            assert(!(old_current.contains(pos) && old_mines.contains(pos)));
            lemma_push_no_duplicates(old_mines, pos);
        }
        proof {
            assert forall|k: int| 0 <= k < self.mines@.len() implies #[trigger] in_grid(w, h, self.mines@[k]) by {
                assert(self.mines@.contains(self.mines@[k]));
            }
        }
        let mut grid = MinesweeperGrid::from_mine_positions(self.width, self.height, &self.mines);
        let ghost laid = grid;
        grid.uncover(self.pressed_position);
        self.grid = grid;
        self.pending = true;
        self.approved = Ghost(false);
        proof {
            assert(laid.cells() =~= mine_board(w, h, self.mines@));
            assert(laid.wf());
            assert(is_opened_board(self.grid, w, h, p, self.mines@));
            assert(old_mines.push(pos) == self.mines@);
            assert(old_mines.push(old_current[idx as int]) == self.mines@);
            assert(self.current@ == old_current.update(idx as int, old_current.last()).drop_last());
            assert(0 <= idx < old_current.len());
            assert(old(self).mines().push(old(self).to_try()[idx as int]) == self.mines());
            assert(self.picks@.last() == old_current.len());
            assert(allowed_distinct(w, h, p, self.current@));
            assert(allowed_distinct(w, h, p, self.rejected@));
            assert(self.mines@.no_duplicates());
            assert(allowed_distinct(w, h, p, self.mines@));
            assert(disjoint(self.current@, self.rejected@));
            assert(disjoint(self.current@, self.mines@));
            assert(disjoint(self.rejected@, self.mines@));
        }
        true
    }

    /// The candidate board that awaits the solver's verdict.
    pub fn candidate(&self) -> (r: &MinesweeperGrid)
        ensures
            *r == self.board(),
    {
        &self.grid
    }

    /// Records the solver's verdict on the candidate: a board it can clear
    /// keeps the new mine and puts back every cell set aside; otherwise the
    /// new mine is taken up and its cell set aside.
    pub fn record_verdict(&mut self, solvable: bool)
        requires
            old(self).wf(),
            old(self).is_pending(),
        ensures
            final(self).wf(),
            !final(self).is_pending(),
            final(self).width() == old(self).width(),
            final(self).height() == old(self).height(),
            final(self).pressed_position() == old(self).pressed_position(),
            final(self).num_mines() == old(self).num_mines(),
            final(self).board() == old(self).board(),
            solvable ==> {
                &&& final(self).mines() == old(self).mines()
                &&& final(self).is_approved()
                &&& final(self).to_try() == old(self).to_try() + old(self).set_aside()
                &&& final(self).set_aside().len() == 0
            },
            !solvable ==> {
                &&& final(self).mines() == old(self).mines().drop_last()
                &&& !final(self).is_approved()
                &&& final(self).to_try() == old(self).to_try()
                &&& final(self).set_aside() == old(self).set_aside().push(old(self).mines().last())
            },
    {
        let ghost w = self.width;
        let ghost h = self.height;
        let ghost p = self.pressed_position;
        let ghost old_current = self.current@;
        let ghost old_rejected = self.rejected@;
        let ghost old_mines = self.mines@;
        if solvable {
            self.current.append(&mut self.rejected);
            self.pending = false;
            self.approved = Ghost(true);
            proof {
                lemma_append_contains(old_current, old_rejected);
                assert forall|x: Position| #![trigger self.current@.contains(x), self.mines@.contains(x)]
                    !(self.current@.contains(x) && self.mines@.contains(x)) by {
                    assert(!(old_current.contains(x) && old_mines.contains(x)));
                    assert(!(old_rejected.contains(x) && old_mines.contains(x)));
                }
            }
        } else {
            proof {
                assert(is_opened_board(self.grid, w, h, p, self.mines@));
            }
            let pos = self.mines.pop().unwrap();
            self.rejected.push(pos);
            self.pending = false;
            self.approved = Ghost(false);
            proof {
                assert(old_mines.len() > 0);
                assert(self.mines@ =~= old_mines.drop_last());
                lemma_drop_last_contains(old_mines);
                lemma_push_contains(old_rejected, pos);
                assert(old_mines.contains(old_mines[old_mines.len() - 1]));
                assert(!(old_rejected.contains(pos) && old_mines.contains(pos)));
                lemma_push_no_duplicates(old_rejected, pos);
            }
        }
    }

    /// The board that the run ends with: the last board that the solver
    /// cleared, first click played; a board with no mine if none was wanted.
    pub fn finish(self) -> (g: MinesweeperGrid)
        requires
            self.wf(),
            !self.is_pending(),
            self.mines().len() >= self.num_mines(),
        ensures
            g == self.board(),
            g.wf(),
            g.width == self.width(),
            g.height == self.height(),
            is_consistent(g),
            clear_around(g, self.pressed_position()),
            count_cells(g.cells(), CellFilter::Mine) == self.num_mines(),
            self.num_mines() > 0 ==> {
                &&& self.is_approved()
                &&& self.mines().len() == self.num_mines()
                &&& self.mines().no_duplicates()
                &&& is_opened_board(g, self.width(), self.height(), self.pressed_position(), self.mines())
            },
            self.num_mines() == 0 ==> forall|i: int|
                0 <= i < g.cells().len() ==> #[trigger] g.cells()[i] == covered(CellContent::Empty),
    {
        proof {
            lemma_finished_board(self.grid, self.width, self.height, self.pressed_position, self.mines@, self.num_mines);
            lemma_finished_count(self.grid, self.width, self.height, self.pressed_position, self.mines@, self.num_mines);
        }
        self.grid
    }
}

/// The board a run ends with holds one mine per mine laid.
proof fn lemma_finished_count(
    g: Grid<Cell>,
    w: usize,
    h: usize,
    p: Position,
    mines: Seq<Position>,
    num_mines: usize,
)
    requires
        g.wf(),
        g.width == w,
        g.height == h,
        allowed_distinct(w, h, p, mines),
        mines.len() == num_mines,
        num_mines > 0 ==> is_opened_board(g, w, h, p, mines),
        num_mines == 0 ==> forall|i: int|
            0 <= i < g.cells().len() ==> #[trigger] g.cells()[i] == covered(CellContent::Empty),
    ensures
        count_cells(g.cells(), CellFilter::Mine) == num_mines,
{
    let f = CellFilter::Mine.pred();
    if num_mines > 0 {
        let laid = choose|laid: Grid<Cell>|
            {
                &&& #[trigger] laid.wf()
                &&& laid.width == w
                &&& laid.height == h
                &&& laid.cells() == mine_board(w, h, mines)
                &&& g.cells() == flood_result(laid, p)
            };
        assert forall|k: int| 0 <= k < mines.len() implies #[trigger] in_grid(w, h, mines[k]) by {
            assert(mines.contains(mines[k]));
        }
        lemma_mine_board_count(w, h, mines);
        assert forall|i: int| 0 <= i < g.cells().len() implies f(#[trigger] g.cells()[i]) == f(
            laid.cells()[i],
        ) by {}
        lemma_count_pointwise(g.cells(), f, laid.cells(), f);
    } else {
        assert forall|i: int| 0 <= i < g.cells().len() implies !f(#[trigger] g.cells()[i]) by {}
        lemma_count_none(g.cells(), f);
    }
}

/// The board a run ends with follows its own mines and keeps them away from
/// the first click.
proof fn lemma_finished_board(
    g: Grid<Cell>,
    w: usize,
    h: usize,
    p: Position,
    mines: Seq<Position>,
    num_mines: usize,
)
    requires
        g.wf(),
        g.width == w,
        g.height == h,
        in_grid(w, h, p),
        allowed_distinct(w, h, p, mines),
        num_mines > 0 ==> is_opened_board(g, w, h, p, mines),
        num_mines == 0 ==> forall|i: int|
            0 <= i < g.cells().len() ==> #[trigger] g.cells()[i] == covered(CellContent::Empty),
    ensures
        is_consistent(g),
        clear_around(g, p),
{
    if num_mines > 0 {
        let laid = choose|laid: Grid<Cell>|
            {
                &&& #[trigger] laid.wf()
                &&& laid.width == w
                &&& laid.height == h
                &&& laid.cells() == mine_board(w, h, mines)
                &&& g.cells() == flood_result(laid, p)
            };
        let layout = positions_layout(mines);
        assert forall|i: int| 0 <= i < g.cells().len() implies (#[trigger] g.cells()[i]).content
            == crate::bit_grid::layout_content(w, h, layout, crate::grid::position_of(w, i)) by {
            assert(g.cells()[i].content == laid.cells()[i].content);
        }
        lemma_layout_board_consistent(g, layout);
        assert forall|q: Position| in_grid(w, h, q) && #[trigger] is_forbidden(w, h, p, q) implies g.at(
            q,
        ).content != CellContent::Mine by {
            assert(mine_in(g)(q) == layout(q));
            if mines.contains(q) {
                assert(is_allowed(w, h, p, q));
            }
        }
    } else {
        assert forall|i: int| 0 <= i < g.cells().len() implies (#[trigger] g.cells()[i]).content
            == crate::bit_grid::layout_content(w, h, mine_in(g), crate::grid::position_of(w, i)) by {
            let q = crate::grid::position_of(w, i);
            crate::grid::lemma_position_in_range(w, h, i);
            let s = crate::grid::neighbor_seq(w, h, q);
            crate::grid::lemma_neighbors_in_grid(w, h, q);
            assert forall|j: int| 0 <= j < s.len() implies !mine_in(g)(#[trigger] s[j]) by {
                assert(in_grid(w, h, s[j]));
                crate::grid::lemma_index_in_range(w, h, s[j]);
            }
            crate::minesweeper_grid::lemma_count_none(s, mine_in(g));
        }
        assert forall|q: Position| in_grid(w, h, q) && #[trigger] is_forbidden(w, h, p, q) implies g.at(
            q,
        ).content != CellContent::Mine by {
            crate::grid::lemma_index_in_range(w, h, q);
        }
    }
}

impl OptimizedSolvableGenerator {
    /// Starts a run for a first click on `pressed_position` of a `width` by
    /// `height` board: no mine yet, every allowed cell still to try.
    pub fn start(&self, width: usize, height: usize, pressed_position: Position) -> (run:
        OptimizedGeneration)
        requires
            width * height <= usize::MAX,
            in_grid(width, height, pressed_position),
        ensures
            run.wf(),
            !run.is_pending(),
            run.width() == width,
            run.height() == height,
            run.pressed_position() == pressed_position,
            run.num_mines() == self.num_mines,
            run.seed() == self.seed,
            run.picks().len() == 0,
            run.mines().len() == 0,
            !run.is_approved(),
            run.set_aside().len() == 0,
            run.to_try() == eligible_prefix(width, height, pressed_position, width * height),
    {
        let empty_bits = BitGrid::empty(width, height);
        let grid = MinesweeperGrid::from_bit_grid(&empty_bits);
        let eligible = grid.generate_eligible_generator_positions(pressed_position);
        let current = copy_positions(&eligible);
        let run = OptimizedGeneration {
            width,
            height,
            pressed_position,
            num_mines: self.num_mines,
            seed: self.seed,
            picks: Vec::new(),
            eligible,
            current,
            rejected: Vec::new(),
            mines: Vec::new(),
            grid,
            pending: false,
            approved: Ghost(false),
        };
        proof {
            let w = width;
            let h = height;
            let p = pressed_position;
            lemma_eligible_prefix(w, h, p, (w * h) as int);
            assert forall|x: Position| #[trigger] run.current@.contains(x) implies is_allowed(w, h, p, x) by {
                let j = choose|j: int| 0 <= j < run.current@.len() && run.current@[j] == x;
                assert(is_allowed(w, h, p, eligible_prefix(w, h, p, w * h)[j]));
            }
            if self.num_mines == 0 {
                assert forall|i: int| 0 <= i < grid.cells().len() implies #[trigger] grid.cells()[i]
                    == covered(CellContent::Empty) by {
                    crate::grid::lemma_position_in_range(w, h, i);
                    let q = crate::grid::position_of(w, i);
                    let s = crate::grid::neighbor_seq(w, h, q);
                    crate::grid::lemma_neighbors_in_grid(w, h, q);
                    crate::grid::lemma_index_in_range(w, h, q);
                    assert forall|j: int| 0 <= j < s.len() implies !crate::bit_grid::marked_in(empty_bits)(#[trigger] s[j]) by {
                        assert(in_grid(w, h, s[j]));
                        crate::grid::lemma_index_in_range(w, h, s[j]);
                    }
                    crate::minesweeper_grid::lemma_count_none(s, crate::bit_grid::marked_in(empty_bits));
                }
            }
        }
        run
    }

    pub fn name(&self) -> (r: &'static str)
        ensures
            r@ == "Optimized Solvable Generator"@,
    {
        "Optimized Solvable Generator"
    }
}

} // verus!
