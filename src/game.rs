use vstd::prelude::*;
use vstd::string::*;
use crate::text::{
    cell_of, glyph, grid_piece, grid_text, grid_upto, is_board_char, parse_board, render_board,
    BoardError,
};
use crate::board::{
    best, chosen, count, empties, full, initial, legal_moves, lemma_count_zero,
    lemma_empties_play, lemma_value_range, successors, value, win_score, winner, Cell, Position,
    Side,
};

verus! {

/// How deep `score` searches.
pub enum Depth {
    /// The whole game tree below the position.
    Unlimited,
    /// At most this many plies; not supported.
    Depth(usize),
}

/// Why a score could not be given.
#[derive(Clone, Copy, Debug, PartialEq, Eq, Structural)]
pub enum ScoreError {
    /// Depth-limited search is not implemented.
    BoundedDepthUnsupported,
}

/// A two-player game whose states are values: a start, the legal moves from
/// each state, and an exact score.
pub trait Game: Sized {
    /// The starting state.
    fn new() -> Self;

    /// The states one legal move away, in a fixed order.
    fn moves(&self) -> Vec<Self>;

    /// The score with optimal play; only an unlimited search is supported.
    fn score(&self, depth: Depth) -> (r: Result<isize, ScoreError>)
        ensures
            depth is Unlimited <==> r is Ok,
    ;
}

/// A game of tic-tac-toe: the nine cells, row-major, and the side to move.
#[derive(Clone, Copy, Debug)]
pub struct TicTacToe {
    cells: [Cell; 9],
    turn: Side,
}

impl View for TicTacToe {
    type V = Position;

    closed spec fn view(&self) -> Position {
        Position { cells: self.cells@, turn: self.turn }
    }
}

impl TicTacToe {
    /// The move that automatic play takes: the successor with the best
    /// score for the side to move (for X the last of the highest, for O the
    /// first of the lowest); none when there is no legal move.
    pub fn best_move(&self) -> (r: Option<TicTacToe>)
        ensures
            r is None <==> legal_moves(self@).len() == 0,
            r matches Some(m) ==> exists|k: int|
                chosen(legal_moves(self@), self@.turn, k) && #[trigger] legal_moves(self@)[k] == m@,
            r matches Some(m) ==> value(m@) == value(self@),
    {
        let ms = self.moves();
        let ghost lm = legal_moves(self@);
        if ms.len() == 0 {
            return None;
        }
        assert(ms@.map_values(|m: TicTacToe| m@)[0] == ms@[0]@);
        let mut best_k: usize = 0;
        let mut best_v: isize = ms[0].minimax();
        for k in 1..ms.len()
            invariant
                ms@.map_values(|m: TicTacToe| m@) == lm,
                lm == legal_moves(self@),
                best_k < k <= ms.len(),
                best_v == value(lm[best_k as int]),
                self@.turn == Side::X ==> forall|j: int|
                    0 <= j < k ==> value(#[trigger] lm[j]) <= best_v,
                self@.turn == Side::X ==> forall|j: int|
                    best_k < j < k ==> value(#[trigger] lm[j]) < best_v,
                self@.turn == Side::O ==> forall|j: int|
                    0 <= j < k ==> value(#[trigger] lm[j]) >= best_v,
                self@.turn == Side::O ==> forall|j: int|
                    0 <= j < best_k ==> value(#[trigger] lm[j]) > best_v,
        {
            assert(ms@.map_values(|m: TicTacToe| m@)[k as int] == ms@[k as int]@);
            let v = ms[k].minimax();
            match self.turn {
                Side::X => {
                    if v >= best_v {
                        best_k = k;
                        best_v = v;
                    }
                },
                Side::O => {
                    if v < best_v {
                        best_k = k;
                        best_v = v;
                    }
                },
            }
        }
        assert(ms@.map_values(|m: TicTacToe| m@)[best_k as int] == ms@[best_k as int]@);
        assert(chosen(lm, self@.turn, best_k as int));
        proof {
            crate::laws::lemma_value_is_minimax(self@);
        }
        Some(ms[best_k])
    }

    /// Whether cells `i`, `j` and `k` all hold `c`.
    fn holds_line(&self, c: Cell, i: usize, j: usize, k: usize) -> (r: bool)
        requires
            i < 9,
            j < 9,
            k < 9,
        ensures
            r == crate::board::line(self@.cells, c, i as int, j as int, k as int),
    {
        self.cells[i] == c && self.cells[j] == c && self.cells[k] == c
    }

    /// Whether some row, column or diagonal is filled with `c`.
    fn has_line(&self, c: Cell) -> (r: bool)
        ensures
            r == crate::board::has_line(self@.cells, c),
    {
        let rows = self.holds_line(c, 0, 1, 2) || self.holds_line(c, 3, 4, 5)
            || self.holds_line(c, 6, 7, 8);
        let columns = self.holds_line(c, 0, 3, 6) || self.holds_line(c, 1, 4, 7)
            || self.holds_line(c, 2, 5, 8);
        let diagonals = self.holds_line(c, 0, 4, 8) || self.holds_line(c, 2, 4, 6);
        rows || columns || diagonals
    }

    /// Reads a board text of nine characters, row-major: `X`, `O`, or a blank
    /// written `-`, space or `_`. The side to move is X when the number of
    /// marks is even.
    pub fn from_board(s: &str) -> (r: Result<TicTacToe, BoardError>)
        ensures
            r matches Ok(t) ==> parse_board(s@) == Ok::<Position, BoardError>(t@),
            r matches Err(e) ==> parse_board(s@) == Err::<Position, BoardError>(e),
    {
        let n = s.unicode_len();
        if n != 9 {
            return Err(BoardError::WrongLength);
        }
        let mut nx: usize = 0;
        let mut no: usize = 0;
        for i in 0..9
            invariant
                s@.len() == 9,
                nx == count(s@, 'X', i as int),
                no == count(s@, 'O', i as int),
                nx + no <= i,
        {
            let c = s.get_char(i);
            if c == 'X' {
                nx = nx + 1;
            } else if c == 'O' {
                no = no + 1;
            }
        }
        if nx > no + 1 || no > nx + 1 {
            return Err(BoardError::UnbalancedCounts);
        }
        let mut cells = [Cell::Empty; 9];
        for i in 0..9
            invariant
                s@.len() == 9,
                nx == count(s@, 'X', 9),
                no == count(s@, 'O', 9),
                nx <= no + 1 && no <= nx + 1,
                forall|j: int| 0 <= j < i ==> is_board_char(#[trigger] s@[j]),
                forall|j: int| 0 <= j < i ==> cells@[j] == cell_of(#[trigger] s@[j]),
                forall|j: int| i <= j < 9 ==> cells@[j] == Cell::Empty,
        {
            let c = s.get_char(i);
            if c == 'X' {
                cells[i] = Cell::X;
            } else if c == 'O' {
                cells[i] = Cell::O;
            } else if c != '-' && c != ' ' && c != '_' {
                assert(!is_board_char(s@[i as int]));
                return Err(BoardError::InvalidCharacter);
            }
        }
        let turn = if (nx + no) % 2 == 0 {
            Side::X
        } else {
            Side::O
        };
        let r = TicTacToe { cells, turn };
        assert(r@.cells =~= parse_board(s@)->Ok_0.cells);
        Ok(r)
    }

    /// Writes the board as nine characters, row-major, with `-` for an
    /// empty cell.
    pub fn to_board(&self) -> (r: String)
        ensures
            r@ == render_board(self@.cells),
    {
        let mut r = String::new();
        for i in 0..9
            invariant
                r@ == render_board(self@.cells).take(i as int),
        {
            proof {
                reveal_strlit("X");
                reveal_strlit("O");
                reveal_strlit("-");
            }
            match self.cells[i] {
                Cell::X => r.append("X"),
                Cell::O => r.append("O"),
                Cell::Empty => r.append("-"),
            }
            assert(r@ =~= render_board(self@.cells).take(i + 1));
        }
        assert(r@ =~= render_board(self@.cells));
        r
    }

    /// Draws the board as a 3 by 3 grid with row and column separators,
    /// after a leading newline.
    pub fn to_grid(&self) -> (r: String)
        ensures
            r@ == grid_text(self@.cells),
    {
        let mut r = String::new();
        r.append("\n");
        for i in 0..9
            invariant
                r@ == "\n"@ + grid_upto(self@.cells, i as int),
        {
            let g: &str = match self.cells[i] {
                Cell::X => "X",
                Cell::O => "O",
                Cell::Empty => " ",
            };
            proof {
                reveal_strlit("X");
                reveal_strlit("O");
                reveal_strlit(" ");
                assert(g@ == seq![glyph(self@.cells[i as int])]);
            }
            let ghost before = r@;
            if i == 3 || i == 6 {
                r.append("\n═══╬═══╬═══\n ");
                r.append(g);
                r.append(" ║");
            } else if i == 2 || i == 5 || i == 8 {
                r.append(" ");
                r.append(g);
                r.append(" ");
            } else {
                r.append(" ");
                r.append(g);
                r.append(" ║");
            }
            assert(r@ =~= before + grid_piece(i as int, glyph(self@.cells[i as int])));
            assert(r@ =~= "\n"@ + grid_upto(self@.cells, i + 1));
        }
        r
    }

    /// The side to move next.
    pub fn to_move(&self) -> (r: Side)
        ensures
            r == self@.turn,
    {
        self.turn
    }

    /// The side to move takes cell `i`.
    fn play(&self, i: usize) -> (r: TicTacToe)
        requires
            i < 9,
        ensures
            r@ == crate::board::play(self@, i as int),
    {
        let mut cells = self.cells;
        let m = match self.turn {
            Side::X => Cell::X,
            Side::O => Cell::O,
        };
        cells[i] = m;
        let turn = match self.turn {
            Side::X => Side::O,
            Side::O => Side::X,
        };
        TicTacToe { cells, turn }
    }

    /// The minimax score of this position, searching the whole tree below it.
    fn minimax(&self) -> (r: isize)
        ensures
            r == value(self@),
        decreases empties(self@.cells),
    {
        let w = self.won();
        if w != 0 {
            return w;
        }
        let mut found = false;
        let mut acc: isize = match self.turn {
            Side::X => -1,
            Side::O => 1,
        };
        for i in 0..9
            invariant
                winner(self@.cells) is None,
                acc == best(self@, i as int),
                -1 <= acc <= 1,
                found == (count(self@.cells, Cell::Empty, i as int) > 0),
        {
            if self.cells[i] == Cell::Empty {
                let child = self.play(i);
                proof {
                    lemma_empties_play(self@, i as int);
                    lemma_value_range(child@);
                }
                let v = child.minimax();
                acc = match self.turn {
                    Side::X => if acc >= v { acc } else { v },
                    Side::O => if acc <= v { acc } else { v },
                };
                found = true;
            }
        }
        proof {
            lemma_count_zero(self@.cells, Cell::Empty, 9);
        }
        if found {
            acc
        } else {
            0
        }
    }

    /// The win predicate: 1 when X has a completed line, else -1 when O has
    /// one, else 0.
    pub fn won(&self) -> (r: isize)
        ensures
            r == win_score(self@.cells),
    {
        if self.has_line(Cell::X) {
            1
        } else if self.has_line(Cell::O) {
            -1
        } else {
            0
        }
    }
}

/// Two states are equal when they have the same cells and the same side to
/// move.
impl PartialEq for TicTacToe {
    fn eq(&self, other: &TicTacToe) -> (r: bool)
        ensures
            r == (self@ == other@),
    {
        if self.turn != other.turn {
            return false;
        }
        for i in 0..9
            invariant
                forall|j: int| 0 <= j < i ==> self@.cells[j] == other@.cells[j],
        {
            if self.cells[i] != other.cells[i] {
                return false;
            }
        }
        assert(self@.cells =~= other@.cells);
        true
    }
}

impl vstd::std_specs::cmp::PartialEqSpecImpl for TicTacToe {
    open spec fn obeys_eq_spec() -> bool {
        true
    }

    open spec fn eq_spec(&self, other: &TicTacToe) -> bool {
        self@ == other@
    }
}

impl Eq for TicTacToe {

}

impl Game for TicTacToe {
    /// The empty board with X to move.
    fn new() -> (r: TicTacToe)
        ensures
            r@ == initial(),
    {
        let r = TicTacToe { cells: [Cell::Empty; 9], turn: Side::X };
        assert(r@.cells =~= initial().cells);
        r
    }

    /// One successor per empty cell, in cell order; none once a side has a
    /// line.
    fn moves(&self) -> (r: Vec<TicTacToe>)
        ensures
            r@.map_values(|m: TicTacToe| m@) == legal_moves(self@),
            r.len() == 0 <==> (winner(self@.cells) is Some || full(self@.cells)),
    {
        proof {
            crate::laws::lemma_no_moves(self@);
        }
        let mut r: Vec<TicTacToe> = Vec::new();
        if self.won() != 0 {
            assert(r@.map_values(|m: TicTacToe| m@) =~= legal_moves(self@));
            return r;
        }
        for i in 0..9
            invariant
                r@.map_values(|m: TicTacToe| m@) == successors(self@, i as int),
                winner(self@.cells) is None,
        {
            if self.cells[i] == Cell::Empty {
                let m = self.play(i);
                r.push(m);
                assert(r@.map_values(|m: TicTacToe| m@) =~= successors(self@, i + 1));
            }
        }
        r
    }

    /// The minimax score: 1 when X wins with best play, -1 when O does, 0
    /// for a draw.
    fn score(&self, depth: Depth) -> (r: Result<isize, ScoreError>)
        ensures
            depth is Unlimited ==> r == Ok::<isize, ScoreError>(value(self@) as isize),
            depth is Depth ==> r == Err::<isize, ScoreError>(ScoreError::BoundedDepthUnsupported),
            r matches Ok(v) ==> -1 <= v <= 1,
            r matches Ok(v) ==> (winner(self@.cells) == Some(Side::X) ==> v == 1),
            r matches Ok(v) ==> (winner(self@.cells) == Some(Side::O) ==> v == -1),
    {
        proof {
            lemma_value_range(self@);
        }
        match depth {
            Depth::Unlimited => Ok(self.minimax()),
            Depth::Depth(_) => Err(ScoreError::BoundedDepthUnsupported),
        }
    }
}

} // verus!
