use vstd::prelude::*;

verus! {

/// One of the two players.
#[derive(Clone, Copy, Debug, PartialEq, Eq, Structural)]
pub enum Side {
    X,
    O,
}

/// What stands in one cell of the board.
#[derive(Clone, Copy, Debug, PartialEq, Eq, Structural)]
pub enum Cell {
    Empty,
    X,
    O,
}

/// The mark that `side` leaves in a cell it takes.
pub open spec fn mark(side: Side) -> Cell {
    match side {
        Side::X => Cell::X,
        Side::O => Cell::O,
    }
}

/// The player who moves after `side`.
pub open spec fn other(side: Side) -> Side {
    match side {
        Side::X => Side::O,
        Side::O => Side::X,
    }
}

/// A position: the nine cells in row-major order and the side to move.
pub struct Position {
    pub cells: Seq<Cell>,
    pub turn: Side,
}

/// The empty board with X to move.
pub open spec fn initial() -> Position {
    Position { cells: Seq::new(9, |i: int| Cell::Empty), turn: Side::X }
}

/// Cells `i`, `j` and `k` all hold `c`.
pub open spec fn line(b: Seq<Cell>, c: Cell, i: int, j: int, k: int) -> bool {
    b[i] == c && b[j] == c && b[k] == c
}

/// Some row, column or diagonal is filled with `c`.
pub open spec fn has_line(b: Seq<Cell>, c: Cell) -> bool {
    ||| line(b, c, 0, 1, 2)
    ||| line(b, c, 3, 4, 5)
    ||| line(b, c, 6, 7, 8)
    ||| line(b, c, 0, 3, 6)
    ||| line(b, c, 1, 4, 7)
    ||| line(b, c, 2, 5, 8)
    ||| line(b, c, 0, 4, 8)
    ||| line(b, c, 2, 4, 6)
}

/// The side with a completed line; X is looked at first.
pub open spec fn winner(b: Seq<Cell>) -> Option<Side> {
    if has_line(b, Cell::X) {
        Some(Side::X)
    } else if has_line(b, Cell::O) {
        Some(Side::O)
    } else {
        None
    }
}

/// The win predicate as a number: 1 for X, -1 for O, 0 for no winner.
pub open spec fn win_score(b: Seq<Cell>) -> int {
    match winner(b) {
        Some(Side::X) => 1,
        Some(Side::O) => -1,
        None => 0,
    }
}

/// How many of the first `n` items of `b` equal `c`.
pub open spec fn count<T>(b: Seq<T>, c: T, n: int) -> nat
    decreases n,
{
    if n <= 0 {
        0
    } else {
        count(b, c, n - 1) + if b[n - 1] == c { 1nat } else { 0nat }
    }
}

/// The number of empty cells.
pub open spec fn empties(b: Seq<Cell>) -> nat {
    count(b, Cell::Empty, b.len() as int)
}

/// No cell is empty.
pub open spec fn full(b: Seq<Cell>) -> bool {
    forall|i: int| 0 <= i < 9 ==> b[i] != Cell::Empty
}

/// The position after the side to move takes cell `i`.
pub open spec fn play(p: Position, i: int) -> Position {
    Position { cells: p.cells.update(i, mark(p.turn)), turn: other(p.turn) }
}

/// One position for each empty cell among the first `n`, in cell order.
pub open spec fn successors(p: Position, n: int) -> Seq<Position>
    decreases n,
{
    if n <= 0 {
        Seq::empty()
    } else if p.cells[n - 1] == Cell::Empty {
        successors(p, n - 1).push(play(p, n - 1))
    } else {
        successors(p, n - 1)
    }
}

/// The legal moves: none once a side has a line, else one per empty cell.
pub open spec fn legal_moves(p: Position) -> Seq<Position> {
    if winner(p.cells) is Some {
        Seq::empty()
    } else {
        successors(p, 9)
    }
}

/// The minimax score of `p`: the win predicate decides a won position, a full
/// board is a draw, and otherwise the side to move picks its best successor
/// (X the largest score, O the smallest).
pub open spec fn value(p: Position) -> int
    decreases empties(p.cells), 10int,
{
    if winner(p.cells) is Some {
        win_score(p.cells)
    } else if full(p.cells) {
        0
    } else {
        best(p, 9)
    }
}

/// The best score for the side to move over its moves into the first `n`
/// cells, starting from the worst score for that side.
pub open spec fn best(p: Position, n: int) -> int
    decreases empties(p.cells), n,
{
    if n <= 0 {
        worst(p.turn)
    } else if n - 1 < p.cells.len() && p.cells[n - 1] == Cell::Empty {
        proof {
            lemma_empties_play(p, n - 1);
        }
        pick(p.turn, best(p, n - 1), value(play(p, n - 1)))
    } else {
        best(p, n - 1)
    }
}

/// The score that is worst for `side`.
pub open spec fn worst(side: Side) -> int {
    match side {
        Side::X => -1,
        Side::O => 1,
    }
}

/// The better of two scores for `side`.
pub open spec fn pick(side: Side, a: int, b: int) -> int {
    match side {
        Side::X => if a >= b { a } else { b },
        Side::O => if a <= b { a } else { b },
    }
}

/// `ms[k]` is the move that automatic play takes for `side`: X takes the last
/// of the moves with the highest score, O the first of those with the lowest.
pub open spec fn chosen(ms: Seq<Position>, side: Side, k: int) -> bool {
    &&& 0 <= k < ms.len()
    &&& match side {
        Side::X => {
            &&& forall|j: int| 0 <= j < ms.len() ==> value(#[trigger] ms[j]) <= value(ms[k])
            &&& forall|j: int| k < j < ms.len() ==> value(#[trigger] ms[j]) < value(ms[k])
        },
        Side::O => {
            &&& forall|j: int| 0 <= j < ms.len() ==> value(#[trigger] ms[j]) >= value(ms[k])
            &&& forall|j: int| 0 <= j < k ==> value(#[trigger] ms[j]) > value(ms[k])
        },
    }
}

/// `ps` is a game from the initial position in which each position follows
/// from the one before by a legal move.
pub open spec fn is_play(ps: Seq<Position>) -> bool {
    &&& ps.len() > 0
    &&& ps[0] == initial()
    &&& forall|i: int| 0 <= i < ps.len() - 1 ==> legal_moves(ps[i]).contains(#[trigger] ps[i + 1])
}

/// `p` is reached from the initial position by legal moves.
pub open spec fn reachable(p: Position) -> bool {
    exists|ps: Seq<Position>| is_play(ps) && ps.last() == p
}

/// The cells that hold `c`.
pub open spec fn occupied(b: Seq<Cell>, c: Cell) -> Set<int> {
    Set::new(|i: int| 0 <= i < 9 && b[i] == c)
}

/// Marking an empty cell leaves one empty cell fewer.
pub proof fn lemma_empties_play(p: Position, i: int)
    requires
        0 <= i < p.cells.len(),
        p.cells[i] == Cell::Empty,
    ensures
        empties(play(p, i).cells) + 1 == empties(p.cells),
{
    lemma_count_update(p.cells, Cell::Empty, i, mark(p.turn), p.cells.len() as int);
}

/// Counting after one cell changed.
pub proof fn lemma_count_update<T>(b: Seq<T>, c: T, i: int, v: T, n: int)
    requires
        0 <= i < b.len(),
        n <= b.len(),
    ensures
        count(b.update(i, v), c, n) == if 0 <= i < n {
            count(b, c, n) - (if b[i] == c { 1int } else { 0int }) + (if v == c { 1int } else { 0int })
        } else {
            count(b, c, n) as int
        },
    decreases n,
{
    if n > 0 {
        lemma_count_update(b, c, i, v, n - 1);
    }
}

/// No item among the first `n` equals `c` exactly when the count is zero.
pub proof fn lemma_count_zero<T>(b: Seq<T>, c: T, n: int)
    requires
        0 <= n,
    ensures
        (count(b, c, n) == 0) <==> (forall|i: int| 0 <= i < n ==> b[i] != c),
    decreases n,
{
    if n > 0 {
        lemma_count_zero(b, c, n - 1);
        if count(b, c, n) == 0 {
            assert forall|i: int| 0 <= i < n implies b[i] != c by {}
        }
    }
}

/// Scores lie between -1 and 1.
pub proof fn lemma_value_range(p: Position)
    ensures
        -1 <= value(p) <= 1,
    decreases empties(p.cells), 10int,
{
    if winner(p.cells) is None && !full(p.cells) {
        lemma_best_range(p, 9);
    }
}

/// The running best lies between -1 and 1.
pub proof fn lemma_best_range(p: Position, n: int)
    ensures
        -1 <= best(p, n) <= 1,
    decreases empties(p.cells), n,
{
    if n > 0 {
        lemma_best_range(p, n - 1);
        if n - 1 < p.cells.len() && p.cells[n - 1] == Cell::Empty {
            lemma_empties_play(p, n - 1);
            lemma_value_range(play(p, n - 1));
        }
    }
}

} // verus!
