use vstd::prelude::*;
use crate::cell::{Cell, CellContent, CellState, revealed_cell};
use crate::grid::{Grid, Position, in_grid, index_of, position_of, neighbor_seq, lemma_neighbors_in_grid};

verus! {

/// A revealed empty cell passes the reveal on to its neighbours; a flagged
/// cell never opens and so never does.
pub open spec fn propagates(c: Cell) -> bool {
    c.content == CellContent::Empty && c.state != CellState::Flagged
}

/// One step of the spreading reveal on `g`: from the cell at `a`, which opens
/// onto its neighbours, to its covered neighbour `b`.
pub open spec fn flood_step(g: Grid<Cell>, a: Position, b: Position) -> bool {
    &&& g.in_bounds(a)
    &&& propagates(g.at(a))
    &&& neighbor_seq(g.width, g.height, a).contains(b)
    &&& g.at(b).state == CellState::Covered
}

/// Every two consecutive positions of `path` are a step of the spreading reveal.
pub open spec fn is_flood_path(g: Grid<Cell>, path: Seq<Position>) -> bool
    decreases path.len(),
{
    if path.len() <= 1 {
        true
    } else {
        is_flood_path(g, path.drop_last()) && flood_step(g, path[path.len() - 2], path.last())
    }
}

/// A reveal started at `start` spreads to `q`.
pub open spec fn flood_reaches(g: Grid<Cell>, start: Position, q: Position) -> bool {
    exists|path: Seq<Position>|
        #[trigger] is_flood_path(g, path) && path.len() > 0 && path[0] == start && path.last() == q
}

/// The cells of `g` after a reveal started at `start`: every covered cell that
/// the reveal spreads to is revealed, and nothing else changes.
pub open spec fn flood_result(g: Grid<Cell>, start: Position) -> Seq<Cell> {
    Seq::new(
        g.cells().len(),
        |i: int|
            if flood_reaches(g, start, position_of(g.width, i)) {
                revealed_cell(g.cells()[i])
            } else {
                g.cells()[i]
            },
    )
}

/// The reveal reaches its own start.
pub proof fn lemma_reach_start(g: Grid<Cell>, start: Position)
    ensures
        flood_reaches(g, start, start),
{
    let path = seq![start];
    assert(is_flood_path(g, path));
}

/// What the reveal reaches, it spreads on from.
pub proof fn lemma_reach_extend(g: Grid<Cell>, start: Position, a: Position, b: Position)
    requires
        flood_reaches(g, start, a),
        flood_step(g, a, b),
    ensures
        flood_reaches(g, start, b),
{
    let path = choose|path: Seq<Position>|
        #[trigger] is_flood_path(g, path) && path.len() > 0 && path[0] == start && path.last() == a;
    let longer = path.push(b);
    assert(longer.drop_last() =~= path);
    assert(longer[longer.len() - 2] == a);
    assert(is_flood_path(g, longer));
    assert(longer[0] == start);
}

/// Every step of the reveal leads to a cell on the board.
pub proof fn lemma_step_in_grid(g: Grid<Cell>, a: Position, b: Position)
    requires
        flood_step(g, a, b),
    ensures
        in_grid(g.width, g.height, b),
{
    let s = neighbor_seq(g.width, g.height, a);
    lemma_neighbors_in_grid(g.width, g.height, a);
    let j = choose|j: int| 0 <= j < s.len() && s[j] == b;
    assert(in_grid(g.width, g.height, s[j]));
}

proof fn lemma_path_stays_inside(
    g: Grid<Cell>,
    inside: spec_fn(Position) -> bool,
    path: Seq<Position>,
)
    requires
        path.len() > 0,
        inside(path[0]),
        is_flood_path(g, path),
        forall|a: Position, b: Position| inside(a) && #[trigger] flood_step(g, a, b) ==> inside(b),
    ensures
        inside(path.last()),
    decreases path.len(),
{
    if path.len() > 1 {
        let shorter = path.drop_last();
        assert(shorter[0] == path[0]);
        lemma_path_stays_inside(g, inside, shorter);
        assert(shorter.last() == path[path.len() - 2]);
    }
}

/// A set of positions that holds the start and is closed under the steps of
/// the reveal holds everything that the reveal reaches.
pub proof fn lemma_closed_holds_reached(
    g: Grid<Cell>,
    start: Position,
    inside: spec_fn(Position) -> bool,
)
    requires
        inside(start),
        forall|a: Position, b: Position| inside(a) && #[trigger] flood_step(g, a, b) ==> inside(b),
    ensures
        forall|q: Position| #[trigger] flood_reaches(g, start, q) ==> inside(q),
{
    assert forall|q: Position| #[trigger] flood_reaches(g, start, q) implies inside(q) by {
        let path = choose|path: Seq<Position>|
            #[trigger] is_flood_path(g, path) && path.len() > 0 && path[0] == start && path.last()
                == q;
        lemma_path_stays_inside(g, inside, path);
    }
}

/// A path of two or more cells starts with a step from its first cell.
proof fn lemma_path_first_step(g: Grid<Cell>, path: Seq<Position>)
    requires
        path.len() >= 2,
        is_flood_path(g, path),
    ensures
        flood_step(g, path[0], path[1]),
    decreases path.len(),
{
    if path.len() > 2 {
        let shorter = path.drop_last();
        lemma_path_first_step(g, shorter);
        assert(shorter[0] == path[0] && shorter[1] == path[1]);
    }
}

/// Law: revealing the same cell a second time changes nothing.
pub proof fn lemma_reveal_twice_is_reveal_once(g: Grid<Cell>, g2: Grid<Cell>, p: Position)
    requires
        g.wf(),
        g.in_bounds(p),
        g2.width == g.width,
        g2.height == g.height,
        g2.cells() == flood_result(g, p),
    ensures
        flood_result(g2, p) == g2.cells(),
{
    let w = g.width;
    let h = g.height;
    crate::grid::lemma_index_in_range(w, h, p);
    lemma_reach_start(g, p);
    assert forall|q: Position| #[trigger] flood_reaches(g2, p, q) implies q == p by {
        let path = choose|path: Seq<Position>|
            #[trigger] is_flood_path(g2, path) && path.len() > 0 && path[0] == p && path.last() == q;
        if path.len() >= 2 {
            lemma_path_first_step(g2, path);
            let b = path[1];
            lemma_step_in_grid(g2, p, b);
            crate::grid::lemma_index_in_range(w, h, b);
            assert(g2.at(b).state == CellState::Covered);
            assert(g2.at(p) == revealed_cell(g.at(p)));
            assert(propagates(g.at(p)));
            if !flood_reaches(g, p, b) {
                assert(g.at(b).state == CellState::Covered);
                assert(flood_step(g, p, b));
                lemma_reach_extend(g, p, p, b);
            }
            assert(false);
        }
    }
    assert forall|i: int| 0 <= i < g2.cells().len() implies #[trigger] flood_result(g2, p)[i]
        == g2.cells()[i] by {
        crate::grid::lemma_position_in_range(w, h, i);
        if flood_reaches(g2, p, position_of(w, i)) {
            assert(position_of(w, i) == p);
        }
    }
    assert(flood_result(g2, p) =~= g2.cells());
}

/// Law: a reveal opens covered cells only; it changes no cell's content,
/// covers no open cell and leaves every flag in place.
pub proof fn lemma_reveal_only_opens(g: Grid<Cell>, p: Position)
    ensures
        flood_result(g, p).len() == g.cells().len(),
        forall|i: int|
            0 <= i < g.cells().len() ==> {
                let before = g.cells()[i];
                let after = #[trigger] flood_result(g, p)[i];
                &&& after.content == before.content
                &&& before.state == CellState::Revealed ==> after.state == CellState::Revealed
                &&& before.state == CellState::Flagged ==> after.state == CellState::Flagged
                &&& after.state == CellState::Covered ==> before.state == CellState::Covered
            },
{
}

/// Law: a reveal leaves nothing covered next to an opened empty cell: every
/// neighbour of a cell that the reveal reaches and that opens onto its
/// neighbours ends up revealed or flagged.
pub proof fn lemma_reveal_spreads_fully(g: Grid<Cell>, p: Position)
    requires
        g.wf(),
    ensures
        forall|q: Position, b: Position|
            #![trigger flood_reaches(g, p, q), neighbor_seq(g.width, g.height, q).contains(b)]
            flood_reaches(g, p, q) && g.in_bounds(q) && propagates(g.at(q)) && neighbor_seq(
                g.width,
                g.height,
                q,
            ).contains(b) ==> flood_result(g, p)[index_of(g.width, b)].state != CellState::Covered,
{
    let w = g.width;
    let h = g.height;
    assert forall|q: Position, b: Position|
        flood_reaches(g, p, q) && g.in_bounds(q) && propagates(g.at(q)) && #[trigger] neighbor_seq(
            w,
            h,
            q,
        ).contains(b) implies flood_result(g, p)[index_of(w, b)].state != CellState::Covered by {
        let s = neighbor_seq(w, h, q);
        lemma_neighbors_in_grid(w, h, q);
        let j = choose|j: int| 0 <= j < s.len() && s[j] == b;
        assert(in_grid(w, h, s[j]));
        crate::grid::lemma_index_in_range(w, h, b);
        if g.at(b).state == CellState::Covered {
            assert(flood_step(g, q, b));
            lemma_reach_extend(g, p, q, b);
        }
    }
}

/// Law: on a board whose numbers follow its mines, a reveal that starts on a
/// cell without a mine opens no mine.
pub proof fn lemma_reveal_opens_no_mine(g: Grid<Cell>, p: Position)
    requires
        g.wf(),
        g.in_bounds(p),
        crate::minesweeper_grid::is_consistent(g),
        g.at(p).content != CellContent::Mine,
    ensures
        forall|q: Position| #[trigger] flood_reaches(g, p, q) ==> in_grid(g.width, g.height, q)
            && g.at(q).content != CellContent::Mine,
{
    let w = g.width;
    let h = g.height;
    let inside = |q: Position| in_grid(w, h, q) && g.at(q).content != CellContent::Mine;
    assert forall|a: Position, b: Position| inside(a) && #[trigger] flood_step(g, a, b) implies inside(
        b,
    ) by {
        lemma_step_in_grid(g, a, b);
        crate::grid::lemma_index_in_range(w, h, a);
        let s = neighbor_seq(w, h, a);
        let f = crate::minesweeper_grid::mine_in(g);
        assert(g.cells()[crate::grid::index_of(w, a)].content == crate::bit_grid::layout_content(
            w,
            h,
            f,
            position_of(w, crate::grid::index_of(w, a)),
        ));
        assert(crate::grid::count_in(s, f) == 0);
        crate::grid::lemma_count_zero(s, f);
        let j = choose|j: int| 0 <= j < s.len() && s[j] == b;
        assert(!f(s[j]));
    }
    lemma_closed_holds_reached(g, p, inside);
}

} // verus!
