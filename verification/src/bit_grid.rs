use vstd::prelude::*;
use crate::cell::CellContent;
use crate::grid::{
    Grid, Position, cell_theme, count_in, grid_text, in_grid, neighbor_seq, position_of,
    lemma_count_take, lemma_count_bound, lemma_neighbor_count, lemma_neighbors_in_grid,
    lemma_index_in_range, lemma_symbols_row_major,
};
use crate::text::{decimal, decimal_string};

verus! {

/// A board of yes/no marks; a mine layout when a mark stands for a mine.
pub type BitGrid = Grid<bool>;

/// Whether a mark is set.
pub open spec fn is_set() -> spec_fn(bool) -> bool {
    |b: bool| b
}

/// Whether the cell of `g` at a position is marked.
pub open spec fn marked_in(g: Grid<bool>) -> spec_fn(Position) -> bool {
    |q: Position| g.at(q)
}

/// How many of the cells around `p` are marked.
pub open spec fn adjacent_marks(g: Grid<bool>, p: Position) -> nat {
    count_in(neighbor_seq(g.width, g.height, p), marked_in(g))
}

/// The content that a cell shows: a mine, or the number of adjacent mines
/// (no number when there are none).
pub open spec fn content_for(is_mine: bool, adjacent: nat) -> CellContent {
    if is_mine {
        CellContent::Mine
    } else if adjacent == 0 {
        CellContent::Empty
    } else {
        CellContent::Number(adjacent as u8)
    }
}

/// The content of the cell at `p` of a `w` by `h` board whose mines are the
/// positions that `layout` holds of.
pub open spec fn layout_content(
    w: usize,
    h: usize,
    layout: spec_fn(Position) -> bool,
    p: Position,
) -> CellContent {
    content_for(layout(p), count_in(neighbor_seq(w, h, p), layout))
}

/// The content of the cell at `p` on the board whose mines are the marks of `g`.
pub open spec fn bit_content(g: Grid<bool>, p: Position) -> CellContent {
    layout_content(g.width, g.height, marked_in(g), p)
}

pub proof fn lemma_adjacent_marks_bound(g: Grid<bool>, p: Position)
    ensures
        adjacent_marks(g, p) <= 8,
{
    lemma_count_bound(neighbor_seq(g.width, g.height, p), marked_in(g));
    lemma_neighbor_count(g.width, g.height, p);
}

/// The symbol by which a mark is drawn: a mine, or an empty cell.
pub open spec fn bit_symbol(b: bool) -> Seq<char> {
    if b {
        "M"@
    } else {
        " "@
    }
}

/// The text of a mine layout: its drawing, then its size and its number of
/// mines, one per line.
pub open spec fn bit_grid_text(g: Grid<bool>) -> Seq<char> {
    grid_text(
        g.width as int,
        g.height as int,
        Seq::new((g.width * g.height) as nat, |i: int| bit_symbol(g.at(position_of(g.width, i)))),
    ) + "\n"@ + "\nWidth: "@ + decimal(g.width) + "\n"@ + "Height: "@ + decimal(g.height) + "\n"@
        + "Mines: "@ + decimal(count_in(g.cells(), is_set()) as usize) + "\n"@
}

impl BitGrid {
    /// The layout as text: its drawing (`M` for a mine), then its width,
    /// height and number of mines.
    pub fn to_display_string(&self) -> (r: String)
        requires
            self.wf(),
        ensures
            r@ == bit_grid_text(*self),
    {
        let symbol = |position: Position| -> (s: String)
            requires
                self.wf(),
                self.in_bounds(position),
            ensures
                s@ == bit_symbol(self.at(position)),
            {
                let theme = cell_theme();
                if *self.get(position) {
                    String::from_str(theme.mine)
                } else {
                    String::from_str(theme.empty)
                }
            };
        let drawing = self.draw_grid(symbol);
        let mut out = String::from_str(drawing.as_str());
        proof {
            let syms = choose|syms: Seq<String>|
                {
                    &&& syms.len() == self.width * self.height
                    &&& forall|x: int, y: int|
                        0 <= x < self.width && 0 <= y < self.height ==> call_ensures(
                            symbol,
                            (Position { x: x as usize, y: y as usize },),
                            #[trigger] syms[y * self.width + x],
                        )
                    &&& drawing@ == grid_text(
                        self.width as int,
                        self.height as int,
                        syms.map_values(|s: String| s@),
                    )
                };
            let views = syms.map_values(|s: String| s@);
            let f = |p: Position| bit_symbol(self.at(p));
            assert forall|x: int, y: int| 0 <= x < self.width && 0 <= y < self.height implies #[trigger] views[y
                * self.width + x] == f(Position { x: x as usize, y: y as usize }) by {
                lemma_index_in_range(self.width, self.height, Position { x: x as usize, y: y as usize });
                assert(call_ensures(symbol, (Position { x: x as usize, y: y as usize },), syms[y * self.width + x]));
            }
            lemma_symbols_row_major(self.width, self.height, views, f);
            assert(views =~= Seq::new(
                (self.width * self.height) as nat,
                |i: int| bit_symbol(self.at(position_of(self.width, i))),
            ));
        }
        out.append("\n");
        out.append("\nWidth: ");
        out.append(decimal_string(self.width).as_str());
        out.append("\n");
        out.append("Height: ");
        out.append(decimal_string(self.height).as_str());
        out.append("\n");
        out.append("Mines: ");
        out.append(decimal_string(self.count_bits()).as_str());
        out.append("\n");
        out
    }

    /// A board of `width * height` cells, none of them marked.
    pub fn empty(width: usize, height: usize) -> (g: Grid<bool>)
        requires
            width * height <= usize::MAX,
        ensures
            g.wf(),
            g.width == width,
            g.height == height,
            forall|i: int| 0 <= i < g.cells().len() ==> !#[trigger] g.cells()[i],
    {
        let n = width * height;
        let mut cells: Vec<bool> = Vec::new();
        let mut i: usize = 0;
        while i < n
            invariant
                i <= n,
                cells@.len() == i,
                forall|j: int| 0 <= j < i ==> !#[trigger] cells@[j],
            decreases n - i,
        {
            cells.push(false);
            i = i + 1;
        }
        Grid::new(width, height, cells)
    }

    /// The number of marked cells.
    pub fn count_bits(&self) -> (r: usize)
        ensures
            r == count_in(self.cells(), is_set()),
    {
        let cells = self.iter();
        let mut count: usize = 0;
        let mut i: usize = 0;
        while i < cells.len()
            invariant
                cells@ == self.cells(),
                i <= cells@.len(),
                count == count_in(cells@.take(i as int), is_set()),
            decreases cells@.len() - i,
        {
            proof {
                lemma_count_take(cells@, is_set(), i as int);
                lemma_count_bound(cells@.take(i as int + 1), is_set());
            }
            if cells[i] {
                count = count + 1;
            }
            i = i + 1;
        }
        assert(cells@.take(cells@.len() as int) =~= cells@);
        count
    }

    /// The number of marked cells around `position`.
    pub fn count_adjacent_bits(&self, position: Position) -> (r: usize)
        requires
            self.wf(),
        ensures
            r == adjacent_marks(*self, position),
    {
        let neighbors = self.neighbor_positions(position);
        let ghost f = marked_in(*self);
        proof {
            lemma_neighbors_in_grid(self.width, self.height, position);
        }
        let mut count: usize = 0;
        let mut i: usize = 0;
        while i < neighbors.len()
            invariant
                self.wf(),
                neighbors@ == neighbor_seq(self.width, self.height, position),
                forall|j: int|
                    0 <= j < neighbors@.len() ==> #[trigger] in_grid(
                        self.width,
                        self.height,
                        neighbors@[j],
                    ),
                f == marked_in(*self),
                i <= neighbors@.len(),
                count == count_in(neighbors@.take(i as int), f),
            decreases neighbors@.len() - i,
        {
            proof {
                lemma_count_take(neighbors@, f, i as int);
                lemma_count_bound(neighbors@.take(i as int + 1), f);
            }
            let np = neighbors[i];
            assert(in_grid(self.width, self.height, neighbors@[i as int]));
            if *self.get(np) {
                count = count + 1;
            }
            i = i + 1;
        }
        assert(neighbors@.take(neighbors@.len() as int) =~= neighbors@);
        count
    }

    /// What the cell at `position` shows on the board whose mines are the
    /// marks of this grid.
    pub fn get_cell_content(&self, position: Position) -> (r: CellContent)
        requires
            self.wf(),
            self.in_bounds(position),
        ensures
            r == bit_content(*self, position),
    {
        if *self.get(position) {
            CellContent::Mine
        } else {
            let n = self.count_adjacent_bits(position);
            proof {
                lemma_adjacent_marks_bound(*self, position);
            }
            if n == 0 {
                CellContent::Empty
            } else {
                CellContent::Number(n as u8)
            }
        }
    }
}

} // verus!
