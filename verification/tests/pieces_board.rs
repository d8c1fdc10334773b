use chess_engine::board::Board;
use chess_engine::pieces::{capture_value_cp, opposite_color, piece_value_cp, Color, Piece, PieceType};

fn board_with(pieces: &[((usize, usize), Piece)]) -> Board {
    let mut b = Board::empty();
    for &(sq, p) in pieces {
        b.set(sq.0, sq.1, Some(p));
        if p.piece_type == PieceType::King {
            b.set_king_location(p.color, sq);
        }
    }
    b
}

#[test]
fn piece_values_in_centipawns() {
    assert_eq!(piece_value_cp(PieceType::Pawn), 100);
    assert_eq!(piece_value_cp(PieceType::Queen), 900);
    assert_eq!(capture_value_cp(PieceType::King), 0);
    assert_eq!(capture_value_cp(PieceType::Rook), piece_value_cp(PieceType::Rook));
}

#[test]
fn opposite_color_twice_is_identity() {
    for c in [Color::White, Color::Black] {
        assert_ne!(opposite_color(c), c);
        assert_eq!(opposite_color(opposite_color(c)), c);
    }
}

#[test]
fn fen_chars_round_trip() {
    for pt in [PieceType::Pawn, PieceType::Knight, PieceType::Bishop, PieceType::Rook, PieceType::Queen, PieceType::King] {
        for c in [Color::White, Color::Black] {
            let p = Piece::new(pt, c);
            assert_eq!(Piece::from_fen_char(p.to_fen_char()), Some(p));
        }
    }
    assert_eq!(Piece::new(PieceType::Knight, Color::White).to_fen_char(), 'N');
    assert_eq!(Piece::new(PieceType::Knight, Color::Black).to_fen_char(), 'n');
    assert_eq!(Piece::from_fen_char('x'), None);
}

#[test]
fn board_set_and_get() {
    let mut b = Board::empty();
    assert_eq!(b.get(3, 4), None);
    let q = Piece::new(PieceType::Queen, Color::Black);
    b.set(3, 4, Some(q));
    assert_eq!(b.get(3, 4), Some(q));
    assert!(!b.is_empty((3, 4)));
    assert!(b.is_empty((4, 3)));
}

#[test]
fn move_piece_basic_moves_and_follows_king() {
    let wk = Piece::new(PieceType::King, Color::White);
    let mut b = board_with(&[((0, 4), wk)]);
    assert!(b.move_piece_basic((0, 4), (1, 4)));
    assert_eq!(b.get(1, 4), Some(wk));
    assert_eq!(b.get(0, 4), None);
    assert_eq!(b.get_king_location(Color::White), (1, 4));
    assert!(!b.move_piece_basic((5, 5), (6, 6)));
}

#[test]
fn rook_attacks_along_open_file_only() {
    let wr = Piece::new(PieceType::Rook, Color::White);
    let bp = Piece::new(PieceType::Pawn, Color::Black);
    let b = board_with(&[((0, 0), wr), ((4, 0), bp)]);
    assert!(b.piece_attacks_square(wr, (0, 0), (4, 0)));
    assert!(!b.piece_attacks_square(wr, (0, 0), (5, 0)));
    assert!(b.is_square_attacked_by((3, 0), Color::White));
    assert!(!b.is_square_attacked_by((6, 0), Color::White));
}

#[test]
fn pawn_attacks_diagonally_forward() {
    let wp = Piece::new(PieceType::Pawn, Color::White);
    let b = board_with(&[((1, 3), wp)]);
    assert!(b.is_square_pawn_attacked_by(Color::White, (2, 2)));
    assert!(b.is_square_pawn_attacked_by(Color::White, (2, 4)));
    assert!(!b.is_square_pawn_attacked_by(Color::White, (2, 3)));
    assert!(!b.is_square_pawn_attacked_by(Color::White, (0, 2)));
}

#[test]
fn side_in_check_and_pin() {
    let wk = Piece::new(PieceType::King, Color::White);
    let bk = Piece::new(PieceType::King, Color::Black);
    let br = Piece::new(PieceType::Rook, Color::Black);
    let wb = Piece::new(PieceType::Bishop, Color::White);
    // white king e1, white bishop e2, black rook e8: the bishop is pinned
    let b = board_with(&[((0, 4), wk), ((7, 0), bk), ((1, 4), wb), ((7, 4), br)]);
    assert!(!b.is_side_in_check(Color::White));
    assert!(b.move_piece_is_pinned((1, 4), (2, 5), None));
    assert!(b.is_king_in_check_after_move((1, 4), (2, 3), None));
    let b2 = board_with(&[((0, 4), wk), ((7, 0), bk), ((7, 4), br)]);
    assert!(b2.is_side_in_check(Color::White));
    assert!(!b2.is_side_in_check(Color::Black));
}
