use chess_engine::game_state::GameState;
use chess_engine::heuristics::SearchHeuristics;
use chess_engine::move_picker::MovePicker;
use chess_engine::movegen::find_all_valid_moves;
use chess_engine::pieces::Color;

#[test]
fn test_move_picker_returns_all_moves() {
    let gs = GameState::default();
    let moves = find_all_valid_moves(&mut gs.clone());
    let heuristics = SearchHeuristics::new(128);

    let mut picker = MovePicker::new(moves.clone(), None, [None, None], Color::White, 0, None);

    let mut picked = Vec::new();
    while let Some(mv) = picker.next(gs.board(), gs.en_passant_target(), &heuristics) {
        picked.push(mv);
    }

    assert_eq!(picked.len(), moves.len(), "Should return all moves");
}

#[test]
fn test_tt_move_first() {
    let gs = GameState::default();
    let moves = find_all_valid_moves(&mut gs.clone());
    let heuristics = SearchHeuristics::new(128);

    // e2 = 12, e4 = 28 as square numbers
    let tt_hint = Some((12, 28));

    let mut picker = MovePicker::new(moves, tt_hint, [None, None], Color::White, 0, None);

    let first = picker.next(gs.board(), gs.en_passant_target(), &heuristics);
    assert!(first.is_some());
    let (from, to, _) = first.unwrap();
    assert_eq!(from, (1, 4), "TT move should be first");
    assert_eq!(to, (3, 4), "TT move should be first");
}

#[test]
fn picker_hands_out_each_move_once() {
    let gs = GameState::default();
    let moves = find_all_valid_moves(&mut gs.clone());
    let heuristics = SearchHeuristics::new(64);
    let mut picker = MovePicker::new(moves.clone(), Some((12, 28)), [Some(((0, 6), (2, 5))), None], Color::White, 0, None);
    let mut picked = Vec::new();
    while let Some(mv) = picker.next(gs.board(), gs.en_passant_target(), &heuristics) {
        assert!(moves.contains(&mv));
        assert!(!picked.iter().any(|p: &((usize, usize), (usize, usize), Option<char>)| p.0 == mv.0 && p.1 == mv.1));
        picked.push(mv);
    }
    assert_eq!(picked.len(), 20);
    // the killer Ng1-f3 comes right after the table move (no captures at the start)
    assert_eq!(picked[0].0, (1, 4));
    assert_eq!(picked[1].0, (0, 6));
    assert_eq!(picked[1].1, (2, 5));
    // once exhausted, the picker stays exhausted
    assert!(picker.next(gs.board(), gs.en_passant_target(), &heuristics).is_none());
}

#[test]
fn picker_ignores_hint_not_in_list() {
    let gs = GameState::default();
    let moves = find_all_valid_moves(&mut gs.clone());
    let heuristics = SearchHeuristics::new(64);
    // a1 to a8 is no move of the start position
    let mut picker = MovePicker::new(moves.clone(), Some((0, 56)), [None, None], Color::White, 0, None);
    let first = picker.next(gs.board(), gs.en_passant_target(), &heuristics).unwrap();
    assert!(!(first.0 == (0, 0) && first.1 == (7, 0)));
}
