use chess_engine::board::Board;
use chess_engine::game_state::GameState;
use chess_engine::movegen::{find_all_capture_moves, find_all_evasion_moves, find_all_valid_moves, find_all_valid_moves_into_perft, PerftMove};
use chess_engine::perft::{perft_count, perft_divide};
use chess_engine::pieces::{Color, Piece, PieceType};

#[test]
fn start_position_has_twenty_moves() {
    let mut g = GameState::new();
    let moves = find_all_valid_moves(&mut g);
    assert_eq!(moves.len(), 20);
    assert!(moves.contains(&((1, 4), (3, 4), None)));
    assert!(moves.contains(&((0, 6), (2, 5), None)));
    assert!(find_all_capture_moves(&mut g).is_empty());
}

#[test]
fn perft_counts_from_start() {
    let g = GameState::new();
    assert_eq!(perft_count(&g, 0), 1);
    assert_eq!(perft_count(&g, 1), 20);
    assert_eq!(perft_count(&g, 2), 400);
    assert_eq!(perft_count(&g, 3), 8902);
}

#[test]
fn perft_divide_lists_each_root_move() {
    let g = GameState::new();
    let d = perft_divide(&g, 2);
    assert_eq!(d.len(), 20);
    assert!(d.iter().all(|(_, n)| *n == 20));
    assert!(d.iter().any(|(s, _)| s == "e2e4"));
    assert!(perft_divide(&g, 0).is_empty());
}

#[test]
fn perft_moves_carry_capture_flags() {
    let mut b = Board::empty();
    b.set(0, 4, Some(Piece::new(PieceType::King, Color::White)));
    b.set_king_location(Color::White, (0, 4));
    b.set(7, 4, Some(Piece::new(PieceType::King, Color::Black)));
    b.set_king_location(Color::Black, (7, 4));
    b.set(3, 3, Some(Piece::new(PieceType::Rook, Color::White)));
    b.set(3, 6, Some(Piece::new(PieceType::Knight, Color::Black)));
    let mut g = GameState::from_board_and_side(b, Color::White);
    let mut out: Vec<PerftMove> = Vec::new();
    find_all_valid_moves_into_perft(&mut g, &mut out);
    let cap = out.iter().find(|m| m.from == (3, 3) && m.to == (3, 6)).unwrap();
    assert!(cap.is_capture);
    let quiet = out.iter().find(|m| m.from == (3, 3) && m.to == (3, 4)).unwrap();
    assert!(!quiet.is_capture);
    let caps = find_all_capture_moves(&mut g);
    assert_eq!(caps, vec![((3, 3), (3, 6), None)]);
}

#[test]
fn evasions_answer_a_check() {
    let mut b = Board::empty();
    b.set(0, 4, Some(Piece::new(PieceType::King, Color::White)));
    b.set_king_location(Color::White, (0, 4));
    b.set(7, 7, Some(Piece::new(PieceType::King, Color::Black)));
    b.set_king_location(Color::Black, (7, 7));
    b.set(5, 4, Some(Piece::new(PieceType::Rook, Color::Black)));
    let mut g = GameState::from_board_and_side(b, Color::White);
    let ev = find_all_evasion_moves(&mut g);
    assert!(!ev.is_empty());
    for (from, to, _) in &ev {
        assert_eq!(*from, (0, 4));
        assert_ne!(to.1, 4);
    }
    let all = find_all_valid_moves(&mut g);
    assert_eq!(ev.len(), all.len());
}

#[test]
fn checkmated_side_has_no_moves() {
    // fool's mate position: white king e1 mated by queen h4
    let mut g = GameState::new();
    let _ = g.make_move_fast((1, 5), (2, 5), None);
    let _ = g.make_move_fast((6, 4), (4, 4), None);
    let _ = g.make_move_fast((1, 6), (3, 6), None);
    let _ = g.make_move_fast((7, 3), (3, 7), None);
    assert!(g.board().is_side_in_check(Color::White));
    assert!(find_all_valid_moves(&mut g).is_empty());
    assert_eq!(perft_count(&g, 1), 0);
}
