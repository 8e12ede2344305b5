use vstd::prelude::*;

verus! {

/// What a cell holds: nothing, a count of adjacent mines, or a mine.
#[derive(Clone, Copy, Debug, PartialEq, Eq, Structural)]
pub enum CellContent {
    Empty,
    Number(u8),
    Mine,
}

/// What the player can see of a cell.
#[derive(Clone, Copy, Debug, PartialEq, Eq, Structural)]
pub enum CellState {
    Covered,
    Revealed,
    Flagged,
}

/// One cell of a minesweeper board.
#[derive(Clone, Copy, Debug, PartialEq, Eq, Structural)]
pub struct Cell {
    pub content: CellContent,
    pub state: CellState,
}

/// The cell `c` after an attempt to reveal it: only a covered cell opens.
pub open spec fn revealed_cell(c: Cell) -> Cell {
    if c.state == CellState::Covered {
        Cell { content: c.content, state: CellState::Revealed }
    } else {
        c
    }
}

/// The cell `c` after the player toggles its flag: covered and flagged swap,
/// a revealed cell stays as it is.
pub open spec fn flagged_cell(c: Cell) -> Cell {
    match c.state {
        CellState::Covered => Cell { content: c.content, state: CellState::Flagged },
        CellState::Revealed => c,
        CellState::Flagged => Cell { content: c.content, state: CellState::Covered },
    }
}

/// The decimal digit that stands for `n` (`n < 10`).
pub open spec fn digit_char(n: u8) -> char {
    (48 + n) as char
}

/// The character by which the board text of the solver encodes cell `c`.
pub open spec fn minesweeprs_char(c: Cell) -> char {
    match c.state {
        CellState::Flagged => '*',
        CellState::Covered => 'x',
        CellState::Revealed => match c.content {
            CellContent::Empty => '0',
            CellContent::Number(n) => digit_char(n),
            CellContent::Mine => '*',
        },
    }
}

/// A cell whose digit, if it shows one, is a single decimal digit.
pub open spec fn has_printable_number(c: Cell) -> bool {
    (c.state == CellState::Revealed && c.content is Number) ==> c.content->Number_0 < 10
}

/// The sprite that shows cell `c`: a pressed covered cell looks like an open
/// empty one (0), an open number shows its own sprite (1 to 8), then the
/// mine (10), the flag (11) and the covered cell (12).
pub open spec fn sprite_of(c: Cell, is_pressed_cell: bool) -> u8 {
    if is_pressed_cell && c.state == CellState::Covered {
        0
    } else {
        match c.state {
            CellState::Covered => 12,
            CellState::Revealed => match c.content {
                CellContent::Empty => 0,
                CellContent::Number(n) => n,
                CellContent::Mine => 10,
            },
            CellState::Flagged => 11,
        }
    }
}

impl Cell {
    pub fn can_be_revealed(&self) -> (r: bool)
        ensures
            r == (self.state == CellState::Covered),
    {
        self.state == CellState::Covered
    }

    pub fn should_propagate(&self) -> (r: bool)
        ensures
            r == (self.state == CellState::Revealed && self.content == CellContent::Empty),
    {
        self.state == CellState::Revealed && self.content == CellContent::Empty
    }

    pub fn is_flagged(&self) -> (r: bool)
        ensures
            r == (self.state == CellState::Flagged),
    {
        self.state == CellState::Flagged
    }

    pub fn uncover(&mut self)
        ensures
            *final(self) == revealed_cell(*old(self)),
    {
        if self.can_be_revealed() {
            self.state = CellState::Revealed;
        }
    }

    /// The index in the sprite sheet of the sprite that shows this cell,
    /// `is_pressed_cell` when the player holds the mouse on it.
    pub fn sprite_index(&self, is_pressed_cell: bool) -> (r: u8)
        ensures
            r == sprite_of(*self, is_pressed_cell),
            self.state == CellState::Flagged ==> r == 11,
            self.state == CellState::Covered ==> r == if is_pressed_cell { 0u8 } else { 12u8 },
    {
        if is_pressed_cell && self.state == CellState::Covered {
            0
        } else {
            match self.state {
                CellState::Covered => 12,
                CellState::Revealed => match self.content {
                    CellContent::Empty => 0,
                    CellContent::Number(n) => n,
                    CellContent::Mine => 10,
                },
                CellState::Flagged => 11,
            }
        }
    }

    pub fn get_minesweeprs_char(&self) -> (r: char)
        requires
            has_printable_number(*self),
        ensures
            r == minesweeprs_char(*self),
    {
        match self.state {
            CellState::Flagged => '*',
            CellState::Covered => 'x',
            CellState::Revealed => {
                match self.content {
                    CellContent::Empty => '0',
                    CellContent::Number(n) => (48u8 + n) as char,
                    CellContent::Mine => '*',
                }
            },
        }
    }
}

impl From<CellContent> for Cell {
    fn from(content: CellContent) -> (r: Self) {
        Cell { content, state: CellState::Covered }
    }
}

impl vstd::std_specs::convert::FromSpecImpl<CellContent> for Cell {
    open spec fn obeys_from_spec() -> bool {
        true
    }

    open spec fn from_spec(content: CellContent) -> Self {
        Cell { content, state: CellState::Covered }
    }
}

/// Law: a flag is always drawn with the flag sprite (11), whether or not the
/// mouse is held on it; a covered cell shows the covered sprite (12) unless
/// the mouse is held on it, when it looks open (0); an open cell looks the
/// same whether or not the mouse is on it.
pub proof fn lemma_sprite_laws(c: Cell, is_pressed_cell: bool)
    ensures
        c.state == CellState::Flagged ==> sprite_of(c, is_pressed_cell) == 11,
        c.state == CellState::Covered ==> sprite_of(c, is_pressed_cell) == if is_pressed_cell {
            0u8
        } else {
            12u8
        },
        c.state == CellState::Revealed ==> sprite_of(c, true) == sprite_of(c, false),
        c.state == CellState::Revealed && c.content == CellContent::Mine ==> sprite_of(c, is_pressed_cell) == 10,
        c.state == CellState::Revealed && c.content is Number ==> sprite_of(c, is_pressed_cell) == c.content->Number_0,
{
}

} // verus!
