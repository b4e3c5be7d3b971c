use vstd::prelude::*;
use crate::board::{count, Cell, Position, Side};

verus! {

/// Why a board text was refused.
#[derive(Clone, Copy, Debug, PartialEq, Eq, Structural)]
pub enum BoardError {
    /// The text does not have exactly nine characters.
    WrongLength,
    /// The numbers of `X` and `O` differ by more than one.
    UnbalancedCounts,
    /// A character is none of `X`, `O`, `-`, space or `_`.
    InvalidCharacter,
}

/// A blank cell may be written `-`, a space or `_`.
pub open spec fn is_blank(c: char) -> bool {
    c == '-' || c == ' ' || c == '_'
}

/// The characters a board text may hold.
pub open spec fn is_board_char(c: char) -> bool {
    c == 'X' || c == 'O' || is_blank(c)
}

/// The cell that a board character stands for.
pub open spec fn cell_of(c: char) -> Cell {
    if c == 'X' {
        Cell::X
    } else if c == 'O' {
        Cell::O
    } else {
        Cell::Empty
    }
}

/// The character that shows a cell.
pub open spec fn char_of(c: Cell) -> char {
    match c {
        Cell::X => 'X',
        Cell::O => 'O',
        Cell::Empty => '-',
    }
}

/// Reads a board text: nine characters, row-major, with X and O counts at
/// most one apart. X is to move when the number of marks is even.
pub open spec fn parse_board(s: Seq<char>) -> Result<Position, BoardError> {
    let nx = count(s, 'X', 9);
    let no = count(s, 'O', 9);
    if s.len() != 9 {
        Err(BoardError::WrongLength)
    } else if nx > no + 1 || no > nx + 1 {
        Err(BoardError::UnbalancedCounts)
    } else if exists|i: int| 0 <= i < 9 && !is_board_char(#[trigger] s[i]) {
        Err(BoardError::InvalidCharacter)
    } else {
        Ok(
            Position {
                cells: Seq::new(9, |i: int| cell_of(s[i])),
                turn: if (nx + no) % 2 == 0 { Side::X } else { Side::O },
            },
        )
    }
}

/// Writes the nine cells, row-major, with `-` for an empty one.
pub open spec fn render_board(b: Seq<Cell>) -> Seq<char> {
    Seq::new(9, |i: int| char_of(b[i]))
}

/// The character that shows a cell in the grid.
pub open spec fn glyph(c: Cell) -> char {
    match c {
        Cell::X => 'X',
        Cell::O => 'O',
        Cell::Empty => ' ',
    }
}

/// The text for cell `i` showing `g`: a row separator before the second and
/// third rows, and a column separator after the first two cells of a row.
pub open spec fn grid_piece(i: int, g: char) -> Seq<char> {
    if i == 3 || i == 6 {
        "\n═══╬═══╬═══\n "@ + seq![g] + " ║"@
    } else if i == 2 || i == 5 || i == 8 {
        " "@ + seq![g] + " "@
    } else {
        " "@ + seq![g] + " ║"@
    }
}

/// The pieces of the grid for the first `n` cells.
pub open spec fn grid_upto(b: Seq<Cell>, n: int) -> Seq<char>
    decreases n,
{
    if n <= 0 {
        Seq::empty()
    } else {
        grid_upto(b, n - 1) + grid_piece(n - 1, glyph(b[n - 1]))
    }
}

/// The board drawn as a 3 by 3 grid, after a leading newline.
pub open spec fn grid_text(b: Seq<Cell>) -> Seq<char> {
    "\n"@ + grid_upto(b, 9)
}

} // verus!
