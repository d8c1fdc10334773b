use chess_engine::board::Board;
use chess_engine::game_state::{CastlingRights, GameState};
use chess_engine::movers::{move_king, move_pawn, move_standard_piece, PieceMover};
use chess_engine::pieces::{Color, Piece, PieceType};
use chess_engine::validators::{is_valid_bishop_move, is_valid_knight_move, is_valid_pawn_move, is_valid_rook_move};

fn piece(pt: PieceType, c: Color) -> Piece {
    Piece::new(pt, c)
}

fn kings_board() -> Board {
    let mut b = Board::empty();
    b.set(0, 4, Some(piece(PieceType::King, Color::White)));
    b.set_king_location(Color::White, (0, 4));
    b.set(7, 4, Some(piece(PieceType::King, Color::Black)));
    b.set_king_location(Color::Black, (7, 4));
    b
}

#[test]
fn start_position_is_set_up() {
    let g = GameState::new();
    assert_eq!(g.active_color(), Color::White);
    assert_eq!(g.board().get(0, 4), Some(piece(PieceType::King, Color::White)));
    assert_eq!(g.board().get(7, 3), Some(piece(PieceType::Queen, Color::Black)));
    assert_eq!(g.board().get(1, 0), Some(piece(PieceType::Pawn, Color::White)));
    assert_eq!(g.board().get(4, 4), None);
    assert_eq!(g.castling_rights(), CastlingRights::all());
    assert_eq!(g.full_move_number(), 1);
}

#[test]
fn make_then_unmake_restores_state() {
    let mut g = GameState::new();
    let before = g;
    let u = g.make_move_fast((1, 4), (3, 4), None);
    assert_eq!(g.active_color(), Color::Black);
    assert_eq!(g.en_passant_target(), Some((2, 4)));
    assert_eq!(g.board().get(3, 4), Some(piece(PieceType::Pawn, Color::White)));
    g.unmake_move_fast(u);
    assert_eq!(g.board().squares, before.board().squares);
    assert_eq!(g.active_color(), before.active_color());
    assert_eq!(g.en_passant_target(), before.en_passant_target());
}

#[test]
fn make_move_castles_with_rook() {
    let mut b = kings_board();
    b.set(0, 7, Some(piece(PieceType::Rook, Color::White)));
    let mut g = GameState::from_board_and_side(b, Color::White);
    g.castling = CastlingRights::all();
    let _u = g.make_move_fast((0, 4), (0, 6), None);
    assert_eq!(g.board().get(0, 5), Some(piece(PieceType::Rook, Color::White)));
    assert_eq!(g.board().get(0, 7), None);
    assert_eq!(g.board().get_king_location(Color::White), (0, 6));
    assert!(!g.castling_rights().white_kingside());
    assert!(!g.castling_rights().white_queenside());
    assert!(g.castling_rights().black_kingside());
}

#[test]
fn make_move_en_passant_and_promotion() {
    let mut b = kings_board();
    b.set(4, 4, Some(piece(PieceType::Pawn, Color::White)));
    b.set(4, 3, Some(piece(PieceType::Pawn, Color::Black)));
    let mut g = GameState::from_board_and_side(b, Color::White);
    g.en_passant = Some((5, 3));
    let u = g.make_move_fast((4, 4), (5, 3), None);
    assert_eq!(g.board().get(4, 3), None);
    assert_eq!(u.ep_captured_piece, Some(piece(PieceType::Pawn, Color::Black)));
    assert_eq!(g.half_move_clock(), 0);

    let mut b2 = kings_board();
    b2.set(6, 0, Some(piece(PieceType::Pawn, Color::White)));
    let mut g2 = GameState::from_board_and_side(b2, Color::White);
    let _u2 = g2.make_move_fast((6, 0), (7, 0), Some('n'));
    assert_eq!(g2.board().get(7, 0), Some(piece(PieceType::Knight, Color::White)));
}

#[test]
fn validators_follow_piece_rules() {
    let mut b = kings_board();
    b.set(3, 3, Some(piece(PieceType::Knight, Color::White)));
    assert!(is_valid_knight_move(&b, (3, 3), (5, 4), false));
    assert!(!is_valid_knight_move(&b, (3, 3), (4, 4), false));
    b.set(2, 5, Some(piece(PieceType::Bishop, Color::White)));
    assert!(is_valid_bishop_move(&b, (2, 5), (5, 2), false));
    b.set(4, 3, Some(piece(PieceType::Pawn, Color::Black)));
    assert!(!is_valid_bishop_move(&b, (2, 5), (5, 2), false));
    b.set(0, 0, Some(piece(PieceType::Rook, Color::White)));
    assert!(is_valid_rook_move(&b, (0, 0), (0, 3), false));
    assert!(!is_valid_rook_move(&b, (0, 0), (1, 1), false));
    b.set(1, 1, Some(piece(PieceType::Pawn, Color::White)));
    assert!(is_valid_pawn_move(&b, (1, 1), (3, 1), false, None, Color::White, None, false));
    assert!(!is_valid_pawn_move(&b, (1, 1), (4, 1), false, None, Color::White, None, false));
}

#[test]
fn standard_and_king_movers_update_clock_and_rights() {
    let mut b = kings_board();
    b.set(0, 1, Some(piece(PieceType::Knight, Color::White)));
    let mut g = GameState::from_board_and_side(b, Color::White);
    g.half_move_clock = 7;
    g.en_passant = Some((5, 2));
    assert!(move_standard_piece(&mut g, (0, 1), (2, 2), false));
    assert_eq!(g.half_move_clock(), 8);
    assert_eq!(g.en_passant_target(), None);
    assert!(!move_standard_piece(&mut g, (4, 4), (5, 5), false));

    let mut b2 = kings_board();
    b2.set(0, 0, Some(piece(PieceType::Rook, Color::White)));
    let mut g2 = GameState::from_board_and_side(b2, Color::White);
    g2.castling = CastlingRights::all();
    assert!(move_king(&mut g2, piece(PieceType::King, Color::White), (0, 4), (0, 2), false));
    assert_eq!(g2.board().get(0, 3), Some(piece(PieceType::Rook, Color::White)));
    assert_eq!(g2.board().get_king_location(Color::White), (0, 2));
    assert!(!g2.castling_rights().white_queenside());
}

#[test]
fn pawn_mover_double_step_sets_en_passant() {
    let mut b = kings_board();
    b.set(1, 2, Some(piece(PieceType::Pawn, Color::White)));
    let mut g = GameState::from_board_and_side(b, Color::White);
    g.half_move_clock = 5;
    assert!(move_pawn(&mut g, piece(PieceType::Pawn, Color::White), (1, 2), (3, 2), false, None));
    assert_eq!(g.en_passant_target(), Some((2, 2)));
    assert_eq!(g.half_move_clock(), 0);
}

#[test]
fn piece_mover_accepts_legal_and_refuses_illegal() {
    let mut g = GameState::new();
    assert!(PieceMover::move_piece(&mut g, (1, 4), (3, 4), false, None));
    assert_eq!(g.board().get(3, 4), Some(piece(PieceType::Pawn, Color::White)));
    assert_eq!(g.en_passant_target(), Some((2, 4)));
    let mut g2 = GameState::new();
    // a rook cannot jump over its pawn
    assert!(!PieceMover::move_piece(&mut g2, (0, 0), (3, 0), false, None));
    // moving the other side's piece is refused
    assert!(!PieceMover::move_piece(&mut g2, (6, 4), (4, 4), false, None));
    assert_eq!(g2.board().get(6, 4), Some(piece(PieceType::Pawn, Color::Black)));
}
