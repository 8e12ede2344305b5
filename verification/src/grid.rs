use vstd::prelude::*;
use crate::text::{display_width, push_char, push_repeated, spaces, str_display_width};

verus! {

/// The symbols by which a board is drawn as text.
pub struct CellTheme {
    pub width: usize,
    pub mine: &'static str,
    pub covered: &'static str,
    pub flag: &'static str,
    pub empty: &'static str,
}

/// How many columns a cell takes up in the drawing of a board.
pub const THEME_WIDTH: usize = 1;

/// The theme in which boards are drawn: one column per cell, `M` for a mine,
/// `#` for a covered cell, `F` for a flag, a space for an empty cell.
pub fn cell_theme() -> (t: CellTheme)
    ensures
        t.width == THEME_WIDTH,
        t.mine@ == "M"@,
        t.covered@ == "#"@,
        t.flag@ == "F"@,
        t.empty@ == " "@,
{
    CellTheme { width: THEME_WIDTH, mine: "M", covered: "#", flag: "F", empty: " " }
}

/// A cell's coordinates: `x` is the column, `y` the row.
#[derive(Clone, Copy, PartialEq, Eq, Debug, Hash, Structural)]
pub struct Position {
    pub x: usize,
    pub y: usize,
}

/// A rectangular board stored row by row: the cell at `(x, y)` sits at
/// index `y * width + x` of `cells`.
#[derive(Clone, Debug)]
pub struct Grid<T> {
    pub width: usize,
    pub height: usize,
    pub cells: Vec<T>,
}

/// `p` lies on a board of `w` columns and `h` rows.
pub open spec fn in_grid(w: usize, h: usize, p: Position) -> bool {
    p.x < w && p.y < h
}

/// The index of `p` in the row-by-row storage of a board `w` columns wide.
pub open spec fn index_of(w: usize, p: Position) -> int {
    p.y * w + p.x
}

/// The position stored at index `i` of a board `w` columns wide.
pub open spec fn position_of(w: usize, i: int) -> Position {
    Position { x: (i % (w as int)) as usize, y: (i / (w as int)) as usize }
}

/// The neighbour of `p` at offset `(dx, dy)` when it lies on the board,
/// as a sequence of at most one position.
pub open spec fn neighbor_at(w: usize, h: usize, p: Position, dx: int, dy: int) -> Seq<Position> {
    let nx = p.x + dx;
    let ny = p.y + dy;
    if 0 <= nx < w && 0 <= ny < h {
        seq![Position { x: nx as usize, y: ny as usize }]
    } else {
        Seq::empty()
    }
}

/// The cells around `p` that lie on the board, column by column from the left
/// and, in each column, from the top.
#[verifier::opaque]
pub open spec fn neighbor_seq(w: usize, h: usize, p: Position) -> Seq<Position> {
    neighbor_at(w, h, p, -1, -1) + neighbor_at(w, h, p, -1, 0) + neighbor_at(w, h, p, -1, 1)
        + neighbor_at(w, h, p, 0, -1) + neighbor_at(w, h, p, 0, 1)
        + neighbor_at(w, h, p, 1, -1) + neighbor_at(w, h, p, 1, 0) + neighbor_at(w, h, p, 1, 1)
}

/// `q` is one of the at most eight cells of the board that touch `p`.
pub open spec fn is_neighbor(w: usize, h: usize, p: Position, q: Position) -> bool {
    &&& in_grid(w, h, q)
    &&& q != p
    &&& p.x - 1 <= q.x <= p.x + 1
    &&& p.y - 1 <= q.y <= p.y + 1
}

/// `q` is the pressed cell `p` or one of its neighbours: no mine may go there.
pub open spec fn is_forbidden(w: usize, h: usize, p: Position, q: Position) -> bool {
    q == p || neighbor_seq(w, h, p).contains(q)
}

/// A mine may go at `q`: it lies on the board away from the pressed cell `p`.
pub open spec fn is_allowed(w: usize, h: usize, p: Position, q: Position) -> bool {
    in_grid(w, h, q) && !is_forbidden(w, h, p, q)
}

/// The positions of the first `k` stored cells of a board `w` by `h`, in
/// storage order, leaving out `pressed` and its neighbours.
pub open spec fn eligible_prefix(w: usize, h: usize, pressed: Position, k: int) -> Seq<Position>
    decreases k,
{
    if k <= 0 {
        Seq::empty()
    } else {
        let prev = eligible_prefix(w, h, pressed, k - 1);
        let p = position_of(w, k - 1);
        if is_forbidden(w, h, pressed, p) {
            prev
        } else {
            prev.push(p)
        }
    }
}

/// The symbol `s`, whose displayed width is `w`, right-aligned in a cell of
/// the theme's width: spaces go in front of a narrower symbol.
pub open spec fn padded(s: Seq<char>, w: usize) -> Seq<char> {
    if w >= THEME_WIDTH {
        s
    } else {
        spaces(THEME_WIDTH - w) + s
    }
}

/// The stretch of line drawn above or below one cell.
pub open spec fn dash_run() -> Seq<char> {
    Seq::new((THEME_WIDTH + 2) as nat, |i: int| '─')
}

/// The first `k` stretches of a horizontal line across `width` cells, with
/// `mid` between two stretches.
pub open spec fn hline_segments(width: int, k: int, mid: char) -> Seq<char>
    decreases k,
{
    if k <= 0 {
        Seq::empty()
    } else {
        hline_segments(width, k - 1, mid) + dash_run() + if k < width {
            seq![mid]
        } else {
            Seq::empty()
        }
    }
}

/// A horizontal line across `width` cells: `left`, the stretches with `mid`
/// between them, `right`.
pub open spec fn hline(width: int, left: char, mid: char, right: char) -> Seq<char> {
    seq![left] + hline_segments(width, width, mid) + seq![right]
}

/// The first `k` cells of row `y` of a drawing `w` cells wide, each with its
/// symbol padded and framed; `syms` holds the symbols row by row.
pub open spec fn row_cells(w: int, y: int, syms: Seq<Seq<char>>, k: int) -> Seq<char>
    decreases k,
{
    if k <= 0 {
        Seq::empty()
    } else {
        row_cells(w, y, syms, k - 1) + seq![' '] + padded(
            syms[y * w + k - 1],
            display_width(syms[y * w + k - 1]),
        ) + seq![' ', '│']
    }
}

/// The first `k` rows of a drawing `w` by `h`, each row followed by a line
/// break and, but after the last row, by a separating line.
pub open spec fn grid_rows(w: int, h: int, syms: Seq<Seq<char>>, k: int) -> Seq<char>
    decreases k,
{
    if k <= 0 {
        Seq::empty()
    } else {
        grid_rows(w, h, syms, k - 1) + seq!['│'] + row_cells(w, k - 1, syms, w) + seq!['\n'] + if k
            < h {
            hline(w, '├', '┼', '┤') + seq!['\n']
        } else {
            Seq::empty()
        }
    }
}

/// A `w` by `h` board drawn as a box of cells with the symbols `syms`,
/// given row by row.
pub open spec fn grid_text(w: int, h: int, syms: Seq<Seq<char>>) -> Seq<char> {
    hline(w, '┌', '┬', '┐') + seq!['\n'] + grid_rows(w, h, syms, h) + hline(w, '└', '┴', '┘')
}

/// How many elements of `s` satisfy `f`.
pub open spec fn count_in<A>(s: Seq<A>, f: spec_fn(A) -> bool) -> nat
    decreases s.len(),
{
    if s.len() == 0 {
        0
    } else {
        count_in(s.drop_last(), f) + if f(s.last()) { 1nat } else { 0nat }
    }
}

/// Symbols given cell by cell, row by row, are the symbols of the cells in
/// storage order.
pub proof fn lemma_symbols_row_major(
    w: usize,
    h: usize,
    views: Seq<Seq<char>>,
    f: spec_fn(Position) -> Seq<char>,
)
    requires
        views.len() == w * h,
        forall|x: int, y: int|
            0 <= x < w && 0 <= y < h ==> #[trigger] views[y * w + x] == f(
                Position { x: x as usize, y: y as usize },
            ),
    ensures
        views == Seq::new((w * h) as nat, |i: int| f(position_of(w, i))),
{
    assert forall|i: int| 0 <= i < w * h implies #[trigger] views[i] == f(position_of(w, i)) by {
        lemma_position_in_range(w, h, i);
        let p = position_of(w, i);
        assert(views[p.y * w + p.x] == f(Position { x: p.x, y: p.y }));
    }
    assert(views =~= Seq::new((w * h) as nat, |i: int| f(position_of(w, i))));
}

/// A row's text depends only on its own symbols.
pub proof fn lemma_row_cells_same(w: int, y: int, a: Seq<Seq<char>>, b: Seq<Seq<char>>, k: int)
    requires
        0 <= k <= w,
        forall|j: int| 0 <= j < y * w + k ==> #[trigger] a[j] == b[j],
        0 <= y,
    ensures
        row_cells(w, y, a, k) == row_cells(w, y, b, k),
    decreases k,
{
    if k > 0 {
        lemma_row_cells_same(w, y, a, b, k - 1);
        assert(a[y * w + k - 1] == b[y * w + k - 1]);
    }
}

/// The first rows' text depends only on their own symbols.
pub proof fn lemma_grid_rows_same(w: int, h: int, a: Seq<Seq<char>>, b: Seq<Seq<char>>, k: int)
    requires
        0 <= k,
        0 <= w,
        forall|j: int| 0 <= j < k * w ==> #[trigger] a[j] == b[j],
    ensures
        grid_rows(w, h, a, k) == grid_rows(w, h, b, k),
    decreases k,
{
    if k > 0 {
        assert((k - 1) * w + w == k * w) by (nonlinear_arith);
        assert((k - 1) * w <= k * w) by (nonlinear_arith)
            requires
                w >= 0,
        ;
        lemma_grid_rows_same(w, h, a, b, k - 1);
        lemma_row_cells_same(w, k - 1, a, b, w);
    }
}

/// Counting the first `i + 1` elements adds the `i`-th element's share to
/// the count of the first `i`.
pub proof fn lemma_count_take<A>(s: Seq<A>, f: spec_fn(A) -> bool, i: int)
    requires
        0 <= i < s.len(),
    ensures
        count_in(s.take(i + 1), f) == count_in(s.take(i), f) + if f(s[i]) { 1nat } else { 0nat },
{
    assert(s.take(i + 1).drop_last() =~= s.take(i));
}

/// Replacing one element changes the count by that element's share only.
pub proof fn lemma_count_update<A>(s: Seq<A>, f: spec_fn(A) -> bool, i: int, v: A)
    requires
        0 <= i < s.len(),
    ensures
        count_in(s.update(i, v), f) + (if f(s[i]) { 1int } else { 0int }) == count_in(s, f) + (
        if f(v) {
            1int
        } else {
            0int
        }),
    decreases s.len(),
{
    let t = s.update(i, v);
    if i == s.len() - 1 {
        assert(t.drop_last() =~= s.drop_last());
    } else {
        assert(t.drop_last() =~= s.drop_last().update(i, v));
        lemma_count_update(s.drop_last(), f, i, v);
    }
}

/// A count never exceeds the length of the sequence.
pub proof fn lemma_count_bound<A>(s: Seq<A>, f: spec_fn(A) -> bool)
    ensures
        count_in(s, f) <= s.len(),
    decreases s.len(),
{
    if s.len() > 0 {
        lemma_count_bound(s.drop_last(), f);
    }
}

/// A count of zero means that no element satisfies the predicate.
pub proof fn lemma_count_zero<A>(s: Seq<A>, f: spec_fn(A) -> bool)
    requires
        count_in(s, f) == 0,
    ensures
        forall|i: int| 0 <= i < s.len() ==> !f(#[trigger] s[i]),
    decreases s.len(),
{
    if s.len() > 0 {
        lemma_count_zero(s.drop_last(), f);
        assert forall|i: int| 0 <= i < s.len() implies !f(#[trigger] s[i]) by {
            if i < s.len() - 1 {
                assert(s[i] == s.drop_last()[i]);
            }
        }
    }
}

/// Two predicates that agree on every element give the same count.
pub proof fn lemma_count_same<A>(s: Seq<A>, f: spec_fn(A) -> bool, g: spec_fn(A) -> bool)
    requires
        forall|i: int| 0 <= i < s.len() ==> f(#[trigger] s[i]) == g(s[i]),
    ensures
        count_in(s, f) == count_in(s, g),
    decreases s.len(),
{
    if s.len() > 0 {
        assert forall|i: int| 0 <= i < s.drop_last().len() implies f(#[trigger] s.drop_last()[i])
            == g(s.drop_last()[i]) by {
            assert(s.drop_last()[i] == s[i]);
        }
        lemma_count_same(s.drop_last(), f, g);
    }
}

/// The neighbours that `neighbor_seq` lists are exactly the cells of the
/// board that touch `p`, each listed once.
#[verifier::spinoff_prover]
#[verifier::rlimit(60)]
pub proof fn lemma_neighbor_seq_members(w: usize, h: usize, p: Position)
    ensures
        forall|q: Position| #[trigger] neighbor_seq(w, h, p).contains(q) <==> is_neighbor(w, h, p, q),
        neighbor_seq(w, h, p).no_duplicates(),
{
    reveal(neighbor_seq);
    let s = neighbor_seq(w, h, p);
    let x = p.x as int;
    let y = p.y as int;
    let a1 = neighbor_at(w, h, p, -1, -1);
    let a2 = a1 + neighbor_at(w, h, p, -1, 0);
    let a3 = a2 + neighbor_at(w, h, p, -1, 1);
    let a4 = a3 + neighbor_at(w, h, p, 0, -1);
    let a5 = a4 + neighbor_at(w, h, p, 0, 1);
    let a6 = a5 + neighbor_at(w, h, p, 1, -1);
    let a7 = a6 + neighbor_at(w, h, p, 1, 0);
    assert(s == a7 + neighbor_at(w, h, p, 1, 1));
    // Each element carries its own offset, and the offsets rise in column-major order.
    let key = |q: Position| (q.x - x + 1) * 3 + (q.y - y + 1);
    assert forall|i: int| 0 <= i < s.len() implies #[trigger] is_neighbor(w, h, p, s[i]) && 0 <= key(s[i]) < 9 by {}
    assert forall|i: int, j: int| 0 <= i < j < s.len() implies key(s[i]) < key(s[j]) by {}
    assert forall|q: Position| #[trigger] s.contains(q) <==> is_neighbor(w, h, p, q) by {
        if is_neighbor(w, h, p, q) {
            let dx = q.x - x;
            let dy = q.y - y;
            let i = if dx == -1 && dy == -1 {
                0int
            } else if dx == -1 && dy == 0 {
                a1.len() as int
            } else if dx == -1 && dy == 1 {
                a2.len() as int
            } else if dx == 0 && dy == -1 {
                a3.len() as int
            } else if dx == 0 && dy == 1 {
                a4.len() as int
            } else if dx == 1 && dy == -1 {
                a5.len() as int
            } else if dx == 1 && dy == 0 {
                a6.len() as int
            } else {
                a7.len() as int
            };
            assert(s[i] == q);
        }
    }
    assert forall|i: int, j: int| 0 <= i < s.len() && 0 <= j < s.len() && i != j implies s[i] != s[j] by {
        if i < j {
            assert(key(s[i]) < key(s[j]));
        } else {
            assert(key(s[j]) < key(s[i]));
        }
    }
}

/// A board's neighbours of one cell number at most eight.
pub proof fn lemma_neighbor_count(w: usize, h: usize, p: Position)
    ensures
        neighbor_seq(w, h, p).len() <= 8,
{
    reveal(neighbor_seq);
}

pub proof fn lemma_index_in_range(w: usize, h: usize, p: Position)
    requires
        in_grid(w, h, p),
    ensures
        0 <= index_of(w, p) < w * h,
        position_of(w, index_of(w, p)) == p,
{
    let x = p.x as int;
    let y = p.y as int;
    let wi = w as int;
    let hi = h as int;
    assert(0 <= y * wi + x < wi * hi) by (nonlinear_arith)
        requires
            0 <= x < wi,
            0 <= y < hi,
    ;
    vstd::arithmetic::div_mod::lemma_fundamental_div_mod_converse(y * wi + x, wi, y, x);
}

pub proof fn lemma_position_in_range(w: usize, h: usize, i: int)
    requires
        0 <= i < w * h,
    ensures
        in_grid(w, h, position_of(w, i)),
        index_of(w, position_of(w, i)) == i,
{
    let wi = w as int;
    let hi = h as int;
    assert(wi > 0) by (nonlinear_arith)
        requires
            0 <= i < wi * hi,
            hi >= 0,
    ;
    vstd::arithmetic::div_mod::lemma_fundamental_div_mod(i, wi);
    let q = i / wi;
    let r = i % wi;
    assert(0 <= r < wi);
    assert(0 <= q < hi) by (nonlinear_arith)
        requires
            i == wi * q + r,
            0 <= r < wi,
            0 <= i < wi * hi,
    ;
    assert(q * wi + r == i) by (nonlinear_arith)
        requires
            i == wi * q + r,
    ;
}

/// Distinct positions on a board have distinct indices.
pub proof fn lemma_index_injective(w: usize, h: usize, p: Position, q: Position)
    requires
        in_grid(w, h, p),
        in_grid(w, h, q),
        index_of(w, p) == index_of(w, q),
    ensures
        p == q,
{
    lemma_index_in_range(w, h, p);
    lemma_index_in_range(w, h, q);
}

/// Every element of `neighbor_seq` lies on the board.
pub proof fn lemma_neighbors_in_grid(w: usize, h: usize, p: Position)
    ensures
        forall|i: int|
            0 <= i < neighbor_seq(w, h, p).len() ==> #[trigger] in_grid(
                w,
                h,
                neighbor_seq(w, h, p)[i],
            ),
{
    reveal(neighbor_seq);
    let s = neighbor_seq(w, h, p);
    assert forall|i: int| 0 <= i < s.len() implies #[trigger] in_grid(w, h, s[i]) by {
        assert(is_neighbor(w, h, p, s[i]));
    }
}

/// Appends the neighbour of `p` at offset `(dx, dy)`, `(nx, ny)`, when `inside`
/// says that it lies on the board.
fn push_candidate(
    v: &mut Vec<Position>,
    inside: bool,
    nx: usize,
    ny: usize,
    Ghost(w): Ghost<usize>,
    Ghost(h): Ghost<usize>,
    Ghost(p): Ghost<Position>,
    Ghost(dx): Ghost<int>,
    Ghost(dy): Ghost<int>,
)
    requires
        inside == (0 <= p.x + dx < w && 0 <= p.y + dy < h),
        inside ==> nx == p.x + dx && ny == p.y + dy,
    ensures
        final(v)@ == old(v)@ + neighbor_at(w, h, p, dx, dy),
{
    if inside {
        v.push(Position { x: nx, y: ny });
        assert(v@ =~= old(v)@ + neighbor_at(w, h, p, dx, dy));
    } else {
        assert(v@ =~= old(v)@ + neighbor_at(w, h, p, dx, dy));
    }
}

/// A horizontal line across `width` cells of the drawing.
pub fn horizontal_line(width: usize, left: char, mid: char, right: char) -> (r: String)
    ensures
        r@ == hline(width as int, left, mid, right),
{
    let mut line = String::new();
    push_char(&mut line, left);
    let mut x: usize = 0;
    while x < width
        invariant
            x <= width,
            line@ == seq![left] + hline_segments(width as int, x as int, mid),
        decreases width - x,
    {
        push_repeated(&mut line, '─', THEME_WIDTH + 2);
        if x + 1 < width {
            push_char(&mut line, mid);
        }
        assert(line@ =~= seq![left] + hline_segments(width as int, x as int + 1, mid));
        x = x + 1;
    }
    push_char(&mut line, right);
    assert(line@ =~= hline(width as int, left, mid, right));
    line
}

/// The symbol `s`, whose displayed width is `width`, right-aligned in a cell
/// of the theme's width.
pub fn pad_cell(s: &str, width: usize) -> (r: String)
    ensures
        r@ == padded(s@, width),
{
    if width >= THEME_WIDTH {
        String::from_str(s)
    } else {
        let mut out = String::new();
        push_repeated(&mut out, ' ', THEME_WIDTH - width);
        out.append(s);
        assert(out@ =~= padded(s@, width));
        out
    }
}

/// The symbol `s` right-aligned in a cell of the theme's width, by its
/// displayed width.
pub fn format_cell(s: &str) -> (r: String)
    ensures
        r@ == padded(s@, display_width(s@)),
{
    let w = str_display_width(s);
    pad_cell(s, w)
}

/// Whether `v` lists `p`.
pub fn contains_position(v: &Vec<Position>, p: Position) -> (r: bool)
    ensures
        r == v@.contains(p),
{
    let mut i: usize = 0;
    while i < v.len()
        invariant
            i <= v@.len(),
            forall|j: int| 0 <= j < i ==> v@[j] != p,
        decreases v@.len() - i,
    {
        if v[i] == p {
            assert(v@[i as int] == p);
            return true;
        }
        i = i + 1;
    }
    false
}

/// Every position that `eligible_prefix` lists is an allowed cell of the
/// board, stored before index `k`; it lists each allowed cell once.
pub proof fn lemma_eligible_prefix(w: usize, h: usize, pressed: Position, k: int)
    requires
        0 <= k <= w * h,
    ensures
        forall|j: int|
            0 <= j < eligible_prefix(w, h, pressed, k).len() ==> {
                let q = #[trigger] eligible_prefix(w, h, pressed, k)[j];
                &&& is_allowed(w, h, pressed, q)
                &&& 0 <= index_of(w, q) < k
            },
        forall|i: int|
            0 <= i < k && !is_forbidden(w, h, pressed, position_of(w, i)) ==> eligible_prefix(
                w,
                h,
                pressed,
                k,
            ).contains(#[trigger] position_of(w, i)),
        eligible_prefix(w, h, pressed, k).no_duplicates(),
    decreases k,
{
    if k > 0 {
        lemma_eligible_prefix(w, h, pressed, k - 1);
        let prev = eligible_prefix(w, h, pressed, k - 1);
        let p = position_of(w, k - 1);
        lemma_position_in_range(w, h, k - 1);
        let cur = eligible_prefix(w, h, pressed, k);
        assert forall|i: int|
            0 <= i < k && !is_forbidden(w, h, pressed, position_of(w, i)) implies cur.contains(
            #[trigger] position_of(w, i),
        ) by {
            if i < k - 1 {
                let j = choose|j: int| 0 <= j < prev.len() && prev[j] == position_of(w, i);
                assert(cur[j] == position_of(w, i));
            } else {
                assert(cur[prev.len() as int] == p);
            }
        }
        if !is_forbidden(w, h, pressed, p) {
            assert forall|a: int, b: int| 0 <= a < b < cur.len() implies cur[a] != cur[b] by {
                if b == prev.len() {
                    assert(index_of(w, prev[a]) < k - 1);
                }
            }
        }
    }
}

impl<T> Grid<T> {
    /// The cells, row by row.
    pub open spec fn cells(&self) -> Seq<T> {
        self.cells@
    }

    /// The board holds exactly `width * height` cells.
    pub open spec fn wf(&self) -> bool {
        self.cells().len() == self.width * self.height
    }

    pub open spec fn in_bounds(&self, p: Position) -> bool {
        in_grid(self.width, self.height, p)
    }

    /// The cell at `p`.
    pub open spec fn at(&self, p: Position) -> T {
        self.cells()[index_of(self.width, p)]
    }

    pub fn new(width: usize, height: usize, cells: Vec<T>) -> (g: Grid<T>)
        ensures
            g.width == width,
            g.height == height,
            g.cells() == cells@,
    {
        Grid { width, height, cells }
    }

    pub fn set_cells(&mut self, cells: Vec<T>)
        ensures
            final(self).width == old(self).width,
            final(self).height == old(self).height,
            final(self).cells() == cells@,
    {
        self.cells = cells;
    }

    /// The index of `position` among the cells, stored row by row.
    pub fn index(&self, position: Position) -> (i: usize)
        requires
            self.in_bounds(position),
            index_of(self.width, position) <= usize::MAX,
        ensures
            i == index_of(self.width, position),
    {
        position.y * self.width + position.x
    }

    /// The index of `position`, known to be one of the cells.
    fn cell_index(&self, position: Position) -> (i: usize)
        requires
            self.in_bounds(position),
            self.wf() || index_of(self.width, position) < self.cells().len(),
        ensures
            i == index_of(self.width, position),
            i < self.cells().len(),
    {
        // The length of a `Vec` fits in a `usize`, and so does every index below it.
        let len = self.cells.len();
        proof {
            if self.wf() {
                lemma_index_in_range(self.width, self.height, position);
            }
        }
        self.index(position)
    }

    pub fn set(&mut self, position: Position, value: T)
        requires
            old(self).in_bounds(position),
            old(self).wf() || index_of(old(self).width, position) < old(self).cells().len(),
        ensures
            final(self).width == old(self).width,
            final(self).height == old(self).height,
            final(self).cells() == old(self).cells().update(index_of(old(self).width, position), value),
    {
        let index = self.cell_index(position);
        self.cells.set(index, value);
    }

    pub fn get(&self, position: Position) -> (r: &T)
        requires
            self.in_bounds(position),
            self.wf() || index_of(self.width, position) < self.cells().len(),
        ensures
            *r == self.at(position),
    {
        &self.cells[self.cell_index(position)]
    }

    pub fn get_mut(&mut self, position: Position) -> (r: &mut T)
        requires
            old(self).in_bounds(position),
            old(self).wf() || index_of(old(self).width, position) < old(self).cells().len(),
        ensures
            *r == old(self).at(position),
            final(self).width == old(self).width,
            final(self).height == old(self).height,
            final(self).cells() == old(self).cells().update(
                index_of(old(self).width, position),
                *final(r),
            ),
    {
        let index = self.cell_index(position);
        &mut self.cells[index]
    }

    /// The cells around `position` that lie on the board, column by column
    /// from the left and, in each column, from the top.
    pub fn neighbor_positions(&self, position: Position) -> (r: Vec<Position>)
        ensures
            r@ == neighbor_seq(self.width, self.height, position),
    {
        let x = position.x;
        let y = position.y;
        let w = self.width;
        let h = self.height;
        let left = x >= 1 && x - 1 < w;
        let mid_x = x < w;
        let right = x < usize::MAX && x + 1 < w;
        let up = y >= 1 && y - 1 < h;
        let mid_y = y < h;
        let down = y < usize::MAX && y + 1 < h;
        let lx = if left { x - 1 } else { 0 };
        let rx = if right { x + 1 } else { 0 };
        let uy = if up { y - 1 } else { 0 };
        let dy = if down { y + 1 } else { 0 };
        let mut neighbors: Vec<Position> = Vec::new();
        push_candidate(&mut neighbors, left && up, lx, uy, Ghost(w), Ghost(h), Ghost(position), Ghost(-1), Ghost(-1));
        push_candidate(&mut neighbors, left && mid_y, lx, y, Ghost(w), Ghost(h), Ghost(position), Ghost(-1), Ghost(0));
        push_candidate(&mut neighbors, left && down, lx, dy, Ghost(w), Ghost(h), Ghost(position), Ghost(-1), Ghost(1));
        push_candidate(&mut neighbors, mid_x && up, x, uy, Ghost(w), Ghost(h), Ghost(position), Ghost(0), Ghost(-1));
        push_candidate(&mut neighbors, mid_x && down, x, dy, Ghost(w), Ghost(h), Ghost(position), Ghost(0), Ghost(1));
        push_candidate(&mut neighbors, right && up, rx, uy, Ghost(w), Ghost(h), Ghost(position), Ghost(1), Ghost(-1));
        push_candidate(&mut neighbors, right && mid_y, rx, y, Ghost(w), Ghost(h), Ghost(position), Ghost(1), Ghost(0));
        push_candidate(&mut neighbors, right && down, rx, dy, Ghost(w), Ghost(h), Ghost(position), Ghost(1), Ghost(1));
        reveal(neighbor_seq);
        assert(neighbors@ =~= neighbor_seq(w, h, position));
        neighbors
    }

    /// The cells, row by row.
    pub fn iter(&self) -> (r: &[T])
        ensures
            r@ == self.cells(),
    {
        self.cells.as_slice()
    }

    /// The cells, row by row, to change in place.
    pub fn iter_mut(&mut self) -> (r: &mut [T])
        ensures
            r@ == old(self).cells(),
            final(self).cells() == final(r)@,
            final(self).width == old(self).width,
            final(self).height == old(self).height,
    {
        self.cells.as_mut_slice()
    }

    pub fn size(&self) -> (r: usize)
        ensures
            r == self.cells().len(),
    {
        self.cells.len()
    }

    /// The board drawn as a box of cells; `get_symbol` gives the symbol of
    /// each cell.
    pub fn draw_grid<F: Fn(Position) -> String>(&self, get_symbol: F) -> (r: String)
        requires
            forall|p: Position| in_grid(self.width, self.height, p) ==> call_requires(get_symbol, (p,)),
        ensures
            exists|syms: Seq<String>|
                {
                    &&& syms.len() == self.width * self.height
                    &&& forall|x: int, y: int|
                        0 <= x < self.width && 0 <= y < self.height ==> call_ensures(
                            get_symbol,
                            (Position { x: x as usize, y: y as usize },),
                            #[trigger] syms[y * self.width + x],
                        )
                    &&& r@ == grid_text(
                        self.width as int,
                        self.height as int,
                        syms.map_values(|s: String| s@),
                    )
                },
    {
        let w = self.width;
        let h = self.height;
        let mut out = String::new();
        let top = horizontal_line(w, '┌', '┬', '┐');
        let mid = horizontal_line(w, '├', '┼', '┤');
        let bot = horizontal_line(w, '└', '┴', '┘');
        out.append(top.as_str());
        push_char(&mut out, '\n');
        let ghost head = out@;
        let ghost mut syms: Seq<String> = Seq::empty();
        let mut y: usize = 0;
        while y < h
            invariant
                w == self.width,
                h == self.height,
                forall|p: Position| in_grid(w, h, p) ==> call_requires(get_symbol, (p,)),
                mid@ == hline(w as int, '├', '┼', '┤'),
                y <= h,
                syms.len() == y * w,
                forall|xx: int, yy: int|
                    0 <= xx < w && 0 <= yy < y ==> call_ensures(
                        get_symbol,
                        (Position { x: xx as usize, y: yy as usize },),
                        #[trigger] syms[yy * w + xx],
                    ),
                out@ == head + grid_rows(w as int, h as int, syms.map_values(|s: String| s@), y as int),
            decreases h - y,
        {
            let mut row = String::new();
            push_char(&mut row, '│');
            let ghost row_start = syms;
            let mut x: usize = 0;
            while x < w
                invariant
                    w == self.width,
                    h == self.height,
                    y < h,
                    forall|p: Position| in_grid(w, h, p) ==> call_requires(get_symbol, (p,)),
                    x <= w,
                    row_start.len() == y * w,
                    syms.len() == y * w + x,
                    forall|k: int| 0 <= k < y * w ==> syms[k] == row_start[k],
                    forall|xx: int|
                        0 <= xx < x ==> call_ensures(
                            get_symbol,
                            (Position { x: xx as usize, y },),
                            #[trigger] syms[y * w + xx],
                        ),
                    row@ == seq!['│'] + row_cells(
                        w as int,
                        y as int,
                        syms.map_values(|s: String| s@),
                        x as int,
                    ),
                decreases w - x,
            {
                let position = Position { x, y };
                assert(in_grid(w, h, position));
                let sym = get_symbol(position);
                let ghost before = syms;
                proof {
                    syms = syms.push(sym);
                }
                push_char(&mut row, ' ');
                row.append(format_cell(sym.as_str()).as_str());
                push_char(&mut row, ' ');
                push_char(&mut row, '│');
                proof {
                    let views = syms.map_values(|s: String| s@);
                    let before_views = before.map_values(|s: String| s@);
                    assert forall|k: int| 0 <= k < y * w + x implies #[trigger] views[k] == before_views[k] by {}
                    lemma_row_cells_same(w as int, y as int, before_views, views, x as int);
                    assert(views[y * w + x] == sym@);
                    assert(row@ =~= seq!['│'] + row_cells(w as int, y as int, views, x as int + 1));
                    assert forall|xx: int|
                        0 <= xx < x + 1 implies call_ensures(
                            get_symbol,
                            (Position { x: xx as usize, y },),
                            #[trigger] syms[y * w + xx],
                        ) by {
                        if xx < x {
                            assert(syms[y * w + xx] == before[y * w + xx]);
                        }
                    }
                }
                x = x + 1;
            }
            out.append(row.as_str());
            push_char(&mut out, '\n');
            if y + 1 < h {
                out.append(mid.as_str());
                push_char(&mut out, '\n');
            }
            proof {
                let views = syms.map_values(|s: String| s@);
                let start_views = row_start.map_values(|s: String| s@);
                assert forall|k: int| 0 <= k < y * w implies #[trigger] views[k] == start_views[k] by {}
                lemma_grid_rows_same(w as int, h as int, start_views, views, y as int);
                assert(out@ =~= head + grid_rows(w as int, h as int, views, y as int + 1));
                assert((y + 1) * w == y * w + w) by (nonlinear_arith);
                assert forall|xx: int, yy: int|
                    0 <= xx < w && 0 <= yy < y + 1 implies call_ensures(
                        get_symbol,
                        (Position { x: xx as usize, y: yy as usize },),
                        #[trigger] syms[yy * w + xx],
                    ) by {
                    if yy < y {
                        assert(yy * w + xx < y * w) by (nonlinear_arith)
                            requires
                                0 <= xx < w,
                                0 <= yy < y,
                        ;
                        assert(syms[yy * w + xx] == row_start[yy * w + xx]);
                    }
                }
            }
            y = y + 1;
        }
        out.append(bot.as_str());
        proof {
            assert(out@ =~= grid_text(w as int, h as int, syms.map_values(|s: String| s@)));
            assert(y * w == w * h) by (nonlinear_arith)
                requires
                    y == h,
            ;
            assert(syms.len() == self.width * self.height);
            assert(forall|x: int, y: int|
                0 <= x < self.width && 0 <= y < self.height ==> call_ensures(
                    get_symbol,
                    (Position { x: x as usize, y: y as usize },),
                    #[trigger] syms[y * self.width + x],
                ));
        }
        out
    }

    /// The positions where a mine may go when `pressed` is the first cell
    /// opened: every cell but `pressed` and its neighbours, in storage order.
    pub fn generate_eligible_generator_positions(&self, pressed_position: Position) -> (r: Vec<
        Position,
    >)
        requires
            self.width > 0 || self.cells().len() == 0,
        ensures
            r@ == eligible_prefix(
                self.width,
                self.height,
                pressed_position,
                self.cells().len() as int,
            ),
    {
        let mut surrounding_positions = self.neighbor_positions(pressed_position);
        surrounding_positions.push(pressed_position);
        let ghost w = self.width;
        let ghost h = self.height;
        let ghost forbidden = surrounding_positions@;
        assert forall|q: Position| forbidden.contains(q) <==> is_forbidden(w, h, pressed_position, q) by {
            let nb = neighbor_seq(w, h, pressed_position);
            assert(forbidden =~= nb.push(pressed_position));
            if forbidden.contains(q) {
                let j = choose|j: int| 0 <= j < forbidden.len() && forbidden[j] == q;
                if j < nb.len() {
                    assert(nb[j] == q);
                }
            }
            if nb.contains(q) {
                let j = choose|j: int| 0 <= j < nb.len() && nb[j] == q;
                assert(forbidden[j] == q);
            }
            if q == pressed_position {
                assert(forbidden[nb.len() as int] == q);
            }
        }
        let n = self.size();
        let mut eligible: Vec<Position> = Vec::new();
        let mut i: usize = 0;
        while i < n
            invariant
                n == self.cells().len(),
                w > 0 || n == 0,
                w == self.width,
                h == self.height,
                surrounding_positions@ == forbidden,
                forall|q: Position| forbidden.contains(q) <==> is_forbidden(w, h, pressed_position, q),
                i <= n,
                eligible@ == eligible_prefix(w, h, pressed_position, i as int),
            decreases n - i,
        {
            let position = Position { x: i % self.width, y: i / self.width };
            if !contains_position(&surrounding_positions, position) {
                eligible.push(position);
            }
            i = i + 1;
        }
        eligible
    }

    /// The position of every stored cell, in storage order.
    pub fn iter_positions(&self) -> (r: Vec<Position>)
        requires
            self.width > 0 || self.cells().len() == 0,
        ensures
            r@.len() == self.cells().len(),
            forall|i: int| 0 <= i < r@.len() ==> #[trigger] r@[i] == position_of(self.width, i),
    {
        let n = self.cells.len();
        let mut positions: Vec<Position> = Vec::new();
        let mut i: usize = 0;
        while i < n
            invariant
                n == self.cells().len(),
                self.width > 0 || n == 0,
                i <= n,
                positions@.len() == i,
                forall|j: int| 0 <= j < i ==> #[trigger] positions@[j] == position_of(self.width, j),
            decreases n - i,
        {
            positions.push(Position { x: i % self.width, y: i / self.width });
            i = i + 1;
        }
        positions
    }
}

} // verus!
