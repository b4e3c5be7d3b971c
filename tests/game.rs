use tictactoe::{BoardError, Depth, Game, ScoreError, Side, TicTacToe};

fn board(s: &str) -> TicTacToe {
    TicTacToe::from_board(s).unwrap()
}

fn play(cells: &[usize]) -> TicTacToe {
    let mut g = TicTacToe::new();
    for &c in cells {
        let text = g.to_board();
        let index = text.chars().take(c).filter(|ch| *ch == '-').count();
        g = g.moves()[index];
    }
    g
}

fn unlimited(g: &TicTacToe) -> isize {
    g.score(Depth::Unlimited).unwrap()
}

/// All states reachable from the start within `depth` moves.
fn reachable(depth: usize) -> Vec<TicTacToe> {
    let mut all = vec![TicTacToe::new()];
    let mut layer = vec![TicTacToe::new()];
    for _ in 0..depth {
        let mut next = Vec::new();
        for g in &layer {
            next.extend(g.moves());
        }
        all.extend(next.iter().copied());
        layer = next;
    }
    all
}

#[test]
fn new_board_is_empty_with_x_to_move() {
    let g = TicTacToe::new();
    assert_eq!(g.to_board(), "---------");
    assert_eq!(g.to_move(), Side::X);
    assert_eq!(g.won(), 0);
}

#[test]
fn moves_from_new_in_cell_order() {
    let ms = TicTacToe::new().moves();
    assert_eq!(ms.len(), 9);
    assert_eq!(ms[0].to_board(), "X--------");
    assert_eq!(ms[4].to_board(), "----X----");
    assert_eq!(ms[8].to_board(), "--------X");
    assert!(ms.iter().all(|m| m.to_move() == Side::O));
}

#[test]
fn moves_skip_occupied_cells() {
    let g = board("XXO-O----");
    let ms = g.moves();
    let texts: Vec<String> = ms.iter().map(|m| m.to_board()).collect();
    assert_eq!(
        texts,
        vec!["XXOXO----", "XXO-OX---", "XXO-O-X--", "XXO-O--X-", "XXO-O---X"]
    );
}

#[test]
fn score_of_new_is_draw() {
    assert_eq!(unlimited(&TicTacToe::new()), 0);
}

#[test]
fn parity_gives_side_to_move() {
    let g = board("XXO-O----");
    assert_eq!(g.to_move(), Side::X);
    let h = board("XXOOXX--O");
    assert_eq!(h.to_move(), Side::O);
    assert_eq!(h.won(), 0);
    assert_eq!(h.moves().len(), 2);
    assert_eq!(unlimited(&h), 0);
}

#[test]
fn row_of_x_wins() {
    let g = play(&[0, 3, 1, 4, 2]);
    assert_eq!(g.to_board(), "XXXOO----");
    assert_eq!(g.won(), 1);
    assert!(g.moves().is_empty());
    assert_eq!(unlimited(&g), 1);
}

#[test]
fn column_of_o_wins() {
    let g = play(&[0, 2, 1, 5, 6, 8]);
    assert_eq!(g.to_board(), "XXO--OX-O");
    assert_eq!(g.won(), -1);
    assert!(g.moves().is_empty());
    assert_eq!(unlimited(&g), -1);
}

#[test]
fn too_many_x_is_refused() {
    assert_eq!(TicTacToe::from_board("XXX------"), Err(BoardError::UnbalancedCounts));
    assert_eq!(TicTacToe::from_board("OO-------"), Err(BoardError::UnbalancedCounts));
}

#[test]
fn full_board_without_line_is_draw() {
    let g = board("XOXXOOOXX");
    assert_eq!(g.won(), 0);
    assert!(g.moves().is_empty());
    assert_eq!(unlimited(&g), 0);
}

#[test]
fn won_position_scores_at_once() {
    let g = board("XXX-OO---");
    assert_eq!(g.won(), 1);
    assert!(g.moves().is_empty());
    assert_eq!(unlimited(&g), 1);
    let h = board("XX-OOOX--");
    assert_eq!(h.won(), -1);
    assert_eq!(unlimited(&h), -1);
}

#[test]
fn x_wins_when_o_blunders() {
    // X threatens two lines at once; O cannot stop both.
    let g = board("X---O---X");
    assert_eq!(g.to_move(), Side::O);
    assert_eq!(unlimited(&g), 0);
    let h = board("XO--X----");
    assert_eq!(h.to_move(), Side::O);
    assert_eq!(unlimited(&h), 1);
}

#[test]
fn wrong_length_is_refused() {
    assert_eq!(TicTacToe::from_board(""), Err(BoardError::WrongLength));
    assert_eq!(TicTacToe::from_board("XO-"), Err(BoardError::WrongLength));
    assert_eq!(TicTacToe::from_board("----------"), Err(BoardError::WrongLength));
}

#[test]
fn invalid_character_is_refused() {
    assert_eq!(TicTacToe::from_board("XO-a-----"), Err(BoardError::InvalidCharacter));
    assert_eq!(TicTacToe::from_board("xo-------"), Err(BoardError::InvalidCharacter));
    assert_eq!(TicTacToe::from_board("X-------\u{e9}"), Err(BoardError::InvalidCharacter));
}

#[test]
fn blank_markers_are_interchangeable() {
    let a = board("X_O -----");
    let b = board("X-O------");
    assert_eq!(a, b);
    assert_eq!(a.to_board(), "X-O------");
}

#[test]
fn bounded_depth_is_unsupported() {
    let g = TicTacToe::new();
    assert_eq!(g.score(Depth::Depth(3)), Err(ScoreError::BoundedDepthUnsupported));
}

#[test]
fn equality_looks_at_cells_and_turn() {
    assert_eq!(TicTacToe::new(), board("---------"));
    assert_ne!(board("X--------"), board("-X-------"));
    assert_ne!(TicTacToe::new(), TicTacToe::new().moves()[0]);
}

#[test]
fn reachable_states_alternate() {
    for g in reachable(9) {
        let text = g.to_board();
        let nx = text.chars().filter(|c| *c == 'X').count();
        let no = text.chars().filter(|c| *c == 'O').count();
        assert!(nx == no || nx == no + 1);
        assert_eq!(g.to_move() == Side::X, (nx + no) % 2 == 0);
    }
}

#[test]
fn round_trip_of_reachable_states() {
    for g in reachable(9) {
        assert_eq!(TicTacToe::from_board(&g.to_board()), Ok(g));
    }
}

#[test]
fn no_moves_exactly_when_won_or_full() {
    for g in reachable(9) {
        let full = !g.to_board().contains('-');
        assert_eq!(g.moves().is_empty(), g.won() != 0 || full);
    }
}

#[test]
fn scores_are_in_range() {
    for g in reachable(3) {
        let s = unlimited(&g);
        assert!(-1 <= s && s <= 1);
        if g.won() != 0 {
            assert_eq!(s, g.won());
        }
    }
}

#[test]
fn grid_of_empty_board() {
    assert_eq!(
        TicTacToe::new().to_grid(),
        "\n   ║   ║   \n═══╬═══╬═══\n   ║   ║   \n═══╬═══╬═══\n   ║   ║   "
    );
}

#[test]
fn grid_shows_marks_in_place() {
    assert_eq!(
        board("XXO-O---X").to_grid(),
        "\n X ║ X ║ O \n═══╬═══╬═══\n   ║ O ║   \n═══╬═══╬═══\n   ║   ║ X "
    );
}

#[test]
fn best_move_for_x_takes_last_of_equals() {
    let m = TicTacToe::new().best_move().unwrap();
    assert_eq!(m.to_board(), "--------X");
}

#[test]
fn best_move_for_o_answers_corner_with_centre() {
    let g = board("X--------");
    let m = g.best_move().unwrap();
    assert_eq!(m.to_board(), "X---O----");
    assert_eq!(unlimited(&m), 0);
}

#[test]
fn best_move_completes_a_line() {
    let g = board("XX-OO----");
    let m = g.best_move().unwrap();
    assert_eq!(unlimited(&m), unlimited(&g));
    assert_eq!(unlimited(&m), 1);
    assert!(g.moves().contains(&m));
}

#[test]
fn best_move_of_finished_game_is_none() {
    assert_eq!(board("XOXXOOOXX").best_move(), None);
    assert_eq!(board("XXX-OO---").best_move(), None);
}

#[test]
fn automatic_play_ends_in_draw() {
    let mut g = TicTacToe::new();
    while let Some(m) = g.best_move() {
        assert_eq!(unlimited(&m), 0);
        g = m;
    }
    assert_eq!(g.won(), 0);
    assert!(!g.to_board().contains('-'));
    assert_eq!(unlimited(&g), 0);
}
