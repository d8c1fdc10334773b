use chess_engine::board::Board;
use chess_engine::game_state::GameState;
use chess_engine::pieces::{Color, Piece, PieceType};
use chess_engine::simple_search::{minimax, SimpleSearch};

fn material(b: &Board, _to_move: Color) -> i32 {
    let mut s = 0;
    for r in 0..8 {
        for c in 0..8 {
            if let Some(p) = b.get(r, c) {
                let v = match p.piece_type {
                    PieceType::Pawn => 100,
                    PieceType::Knight | PieceType::Bishop => 300,
                    PieceType::Rook => 500,
                    PieceType::Queen => 900,
                    PieceType::King => 0,
                };
                if p.color == Color::White { s += v } else { s -= v }
            }
        }
    }
    s
}

fn board_with(pieces: &[((usize, usize), Piece)]) -> Board {
    let mut b = Board::empty();
    for &(sq, pc) in pieces {
        b.set(sq.0, sq.1, Some(pc));
        if pc.piece_type == PieceType::King {
            b.set_king_location(pc.color, sq);
        }
    }
    b
}

#[test]
fn simple_search_takes_the_free_rook() {
    let b = board_with(&[
        ((0, 0), Piece::new(PieceType::King, Color::White)),
        ((0, 3), Piece::new(PieceType::Queen, Color::White)),
        ((7, 7), Piece::new(PieceType::King, Color::Black)),
        ((7, 3), Piece::new(PieceType::Rook, Color::Black)),
    ]);
    let g = GameState::from_board_and_side(b, Color::White);
    let r = SimpleSearch::find_best_move(&g, 1, &material);
    assert_eq!(r, Some(((0, 3), (7, 3), None, 900, 1)));
    assert_eq!(minimax(&g, 0, Color::White, &material), 400);
    assert_eq!(minimax(&g, 0, Color::Black, &material), -400);
}

#[test]
fn minimax_scores_a_mate() {
    // black king on h8, white queen on g7 guarded by the king on f6
    let b = board_with(&[
        ((5, 5), Piece::new(PieceType::King, Color::White)),
        ((6, 6), Piece::new(PieceType::Queen, Color::White)),
        ((7, 7), Piece::new(PieceType::King, Color::Black)),
    ]);
    let g = GameState::from_board_and_side(b, Color::Black);
    assert_eq!(minimax(&g, 1, Color::White, &material), 30_001);
    assert_eq!(minimax(&g, 1, Color::Black, &material), -30_001);
}
