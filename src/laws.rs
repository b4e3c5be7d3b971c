use vstd::prelude::*;
use crate::board::{
    best, count, full, is_play, legal_moves, lemma_best_range, lemma_count_update,
    lemma_count_zero, lemma_empties_play, lemma_value_range, occupied, play, reachable,
    successors, value, winner, worst, Cell, Position, Side,
};
use crate::text::{char_of, parse_board, render_board};

verus! {

/// The mark counts agree with strict alternation starting with X: as many
/// X as O when X is to move, one X more when O is.
pub open spec fn alternated(p: Position) -> bool {
    &&& p.cells.len() == 9
    &&& p.turn == Side::X ==> count(p.cells, Cell::X, 9) == count(p.cells, Cell::O, 9)
    &&& p.turn == Side::O ==> count(p.cells, Cell::X, 9) == count(p.cells, Cell::O, 9) + 1
}

/// Each successor among the first `n` cells takes one empty cell.
proof fn lemma_successor_cell(p: Position, n: int, s: Position)
    requires
        successors(p, n).contains(s),
    ensures
        exists|i: int| 0 <= i < n && p.cells[i] == Cell::Empty && s == #[trigger] play(p, i),
    decreases n,
{
    if n > 0 {
        if p.cells[n - 1] == Cell::Empty && s == play(p, n - 1) {
        } else {
            if p.cells[n - 1] == Cell::Empty {
                let prev = successors(p, n - 1);
                assert(successors(p, n) == prev.push(play(p, n - 1)));
                let j = choose|j: int| 0 <= j < prev.len() + 1 && successors(p, n)[j] == s;
                assert(prev[j] == s);
            }
            lemma_successor_cell(p, n - 1, s);
        }
    }
}

/// A legal move keeps the counts alternated.
proof fn lemma_move_alternated(q: Position, p: Position)
    requires
        alternated(q),
        legal_moves(q).contains(p),
    ensures
        alternated(p),
{
    lemma_successor_cell(q, 9, p);
    let i = choose|i: int| 0 <= i < 9 && q.cells[i] == Cell::Empty && p == #[trigger] play(q, i);
    let m = if q.turn == Side::X { Cell::X } else { Cell::O };
    lemma_count_update(q.cells, Cell::X, i, m, 9);
    lemma_count_update(q.cells, Cell::O, i, m, 9);
}

/// Every position of a game is alternated.
proof fn lemma_play_alternated(ps: Seq<Position>, j: int)
    requires
        is_play(ps),
        0 <= j < ps.len(),
    ensures
        alternated(ps[j]),
    decreases j,
{
    if j == 0 {
        reveal_with_fuel(count, 10);
    } else {
        lemma_play_alternated(ps, j - 1);
        assert(legal_moves(ps[j - 1]).contains(ps[(j - 1) + 1]));
        lemma_move_alternated(ps[j - 1], ps[j]);
    }
}

/// Every reachable position is alternated.
proof fn lemma_reachable_alternated(p: Position)
    requires
        reachable(p),
    ensures
        alternated(p),
{
    let ps = choose|ps: Seq<Position>| is_play(ps) && ps.last() == p;
    lemma_play_alternated(ps, ps.len() - 1);
}

/// In every reachable position the two sides hold disjoint cells, and X is
/// to move exactly when the number of marks on the board is even.
pub proof fn lemma_reachable_consistent(p: Position)
    requires
        reachable(p),
    ensures
        occupied(p.cells, Cell::X).disjoint(occupied(p.cells, Cell::O)),
        p.turn == Side::X <==> (count(p.cells, Cell::X, 9) + count(p.cells, Cell::O, 9)) % 2 == 0,
{
    lemma_reachable_alternated(p);
}

/// The number of successors among the first `n` cells is the number of
/// empty cells there.
proof fn lemma_successors_len(p: Position, n: int)
    ensures
        successors(p, n).len() == count(p.cells, Cell::Empty, n),
    decreases n,
{
    if n > 0 {
        lemma_successors_len(p, n - 1);
    }
}

/// A position has no legal move exactly when a side has a line or the
/// board is full.
pub proof fn lemma_no_moves(p: Position)
    ensures
        legal_moves(p).len() == 0 <==> (winner(p.cells) is Some || full(p.cells)),
{
    lemma_successors_len(p, 9);
    lemma_count_zero(p.cells, Cell::Empty, 9);
}

/// Rendering keeps the count of each mark.
proof fn lemma_count_render(b: Seq<Cell>, c: Cell, n: int)
    requires
        0 <= n <= 9,
        c != Cell::Empty,
    ensures
        count(render_board(b), char_of(c), n) == count(b, c, n),
    decreases n,
{
    if n > 0 {
        lemma_count_render(b, c, n - 1);
    }
}

/// Rendering then reading back an alternated position gives it back.
proof fn lemma_round_trip_alternated(p: Position)
    requires
        alternated(p),
    ensures
        parse_board(render_board(p.cells)) == Ok::<Position, crate::text::BoardError>(p),
{
    let s = render_board(p.cells);
    lemma_count_render(p.cells, Cell::X, 9);
    lemma_count_render(p.cells, Cell::O, 9);
    assert(Seq::new(9, |i: int| crate::text::cell_of(s[i])) =~= p.cells);
}

/// Rendering a reachable position and reading the text back gives the same
/// position: the same cells and the same side to move.
pub proof fn lemma_round_trip(p: Position)
    requires
        reachable(p),
    ensures
        parse_board(render_board(p.cells)) == Ok::<Position, crate::text::BoardError>(p),
{
    lemma_reachable_alternated(p);
    lemma_round_trip_alternated(p);
}

/// Rendering the board of a reachable position and reading it back is
/// accepted and gives the same cells.
pub proof fn lemma_round_trip_cells(p: Position)
    requires
        reachable(p),
    ensures
        parse_board(render_board(p.cells)) is Ok,
        parse_board(render_board(p.cells))->Ok_0.cells == p.cells,
{
    lemma_round_trip(p);
}

/// `v` is what the side to move gets from the positions `ms`: the highest
/// of their scores for X, the lowest for O.
pub open spec fn best_of(ms: Seq<Position>, side: Side, v: int) -> bool {
    &&& exists|j: int| 0 <= j < ms.len() && value(#[trigger] ms[j]) == v
    &&& forall|j: int|
        0 <= j < ms.len() ==> if side == Side::X {
            value(#[trigger] ms[j]) <= v
        } else {
            value(#[trigger] ms[j]) >= v
        }
}

/// The running best over the first `n` cells is the best score among the
/// successors there.
proof fn lemma_best_of_successors(p: Position, n: int)
    requires
        0 <= n <= p.cells.len(),
    ensures
        successors(p, n).len() > 0 ==> best_of(successors(p, n), p.turn, best(p, n)),
        successors(p, n).len() == 0 ==> best(p, n) == worst(p.turn),
    decreases n,
{
    if n > 0 {
        lemma_best_of_successors(p, n - 1);
        lemma_best_range(p, n - 1);
        let prev = successors(p, n - 1);
        if p.cells[n - 1] == Cell::Empty {
            let c = play(p, n - 1);
            lemma_empties_play(p, n - 1);
            lemma_value_range(c);
            let cur = successors(p, n);
            assert(cur == prev.push(c));
            assert(cur[prev.len() as int] == c);
            assert forall|j: int| 0 <= j < prev.len() implies cur[j] == prev[j] by {}
            if prev.len() > 0 {
                let w = choose|j: int| 0 <= j < prev.len() && value(#[trigger] prev[j]) == best(p, n - 1);
                if best(p, n) == value(c) {
                    assert(value(cur[prev.len() as int]) == best(p, n));
                } else {
                    assert(value(cur[w]) == best(p, n));
                }
            } else {
                assert(value(cur[0]) == best(p, n));
            }
        }
    }
}

/// In a position with a legal move, the score is the best score among the
/// legal moves for the side to move: the highest for X, the lowest for O.
pub proof fn lemma_value_is_minimax(p: Position)
    requires
        p.cells.len() == 9,
        legal_moves(p).len() > 0,
    ensures
        best_of(legal_moves(p), p.turn, value(p)),
{
    lemma_no_moves(p);
    lemma_best_of_successors(p, 9);
}

} // verus!
