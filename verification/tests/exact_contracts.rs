use chess_engine::board::Board;
use chess_engine::game_state::GameState;
use chess_engine::heuristics::SearchHeuristics;
use chess_engine::move_picker::MovePicker;
use chess_engine::movegen::{find_all_evasion_moves, find_all_valid_moves};
use chess_engine::ordering::capture_see_order_score;
use chess_engine::perft::{perft_count, perft_divide};
use chess_engine::pieces::{Color, Piece, PieceType};
use chess_engine::see::{king_can_safely_capture, see_after, see_dest_estimate};
use chess_engine::tt::{Bound, TranspositionTable};

fn p(pt: PieceType, c: Color) -> Piece {
    Piece::new(pt, c)
}

fn board_with(pieces: &[((usize, usize), Piece)]) -> Board {
    let mut b = Board::empty();
    for &(sq, pc) in pieces {
        b.set(sq.0, sq.1, Some(pc));
        if pc.piece_type == PieceType::King {
            b.set_king_location(pc.color, sq);
        }
    }
    b
}

fn kings() -> Vec<((usize, usize), Piece)> {
    vec![((0, 4), p(PieceType::King, Color::White)), ((7, 4), p(PieceType::King, Color::Black))]
}

#[test]
fn rook_taking_a_defended_pawn_loses_the_exchange() {
    // white rook has just taken a pawn on d5; a black pawn on e6 retakes
    let mut pcs = kings();
    pcs.push(((4, 3), p(PieceType::Rook, Color::White)));
    pcs.push(((5, 4), p(PieceType::Pawn, Color::Black)));
    let b = board_with(&pcs);
    assert_eq!(see_dest_estimate(&b, Color::White, (4, 3), 100), -400);
    assert_eq!(see_after(&b, Color::White, (4, 3), Some(p(PieceType::Pawn, Color::Black))), -400);
}

#[test]
fn recapture_stops_when_it_would_lose() {
    // white pawn took a knight on d5; black queen on d8 could retake, but a
    // white rook on d1 backs the pawn: black does better not to retake
    let mut pcs = kings();
    pcs.push(((4, 3), p(PieceType::Pawn, Color::White)));
    pcs.push(((7, 3), p(PieceType::Queen, Color::Black)));
    pcs.push(((0, 3), p(PieceType::Rook, Color::White)));
    let b = board_with(&pcs);
    assert_eq!(see_dest_estimate(&b, Color::White, (4, 3), 320), 320);
}

#[test]
fn capture_order_score_sees_the_recapture() {
    // Rxd5 (pawn) with a black pawn on e6: the estimate is -400
    let mut pcs = kings();
    pcs.push(((4, 0), p(PieceType::Rook, Color::White)));
    pcs.push(((4, 3), p(PieceType::Pawn, Color::Black)));
    pcs.push(((5, 4), p(PieceType::Pawn, Color::Black)));
    let b = board_with(&pcs);
    assert_eq!(capture_see_order_score(&b, Color::White, (4, 0), (4, 3), None, false), -400);
    assert_eq!(capture_see_order_score(&b, Color::White, (2, 2), (4, 3), None, false), 0);
}

#[test]
fn king_takes_an_undefended_neighbour() {
    let mut pcs = kings();
    pcs.push(((6, 4), p(PieceType::Queen, Color::White)));
    let b = board_with(&pcs);
    assert_eq!(king_can_safely_capture(&b, Color::White, (6, 4), PieceType::Queen), Some(7200));
    // with a rook behind it, the queen cannot be taken safely
    let mut pcs2 = kings();
    pcs2.push(((6, 4), p(PieceType::Queen, Color::White)));
    pcs2.push(((6, 0), p(PieceType::Rook, Color::White)));
    let b2 = board_with(&pcs2);
    assert_eq!(king_can_safely_capture(&b2, Color::White, (6, 4), PieceType::Queen), None);
}

#[test]
fn divide_counts_add_up_to_perft() {
    let g = GameState::new();
    let total: u64 = perft_divide(&g, 3).iter().map(|(_, n)| *n).sum();
    assert_eq!(total, perft_count(&g, 3));
    assert_eq!(total, 8902);
}

#[test]
fn evasions_are_the_legal_moves_in_a_single_check() {
    // black rook on e8 checks the white king on e1; a white bishop on c3 can
    // block on e5 and a knight on g4 can block on e3 or e5
    let b = board_with(&[((0, 4), p(PieceType::King, Color::White)), ((7, 7), p(PieceType::King, Color::Black)),
        ((7, 4), p(PieceType::Rook, Color::Black)), ((2, 2), p(PieceType::Bishop, Color::White)),
        ((3, 6), p(PieceType::Knight, Color::White))]);
    let mut g = GameState::from_board_and_side(b, Color::White);
    let mut ev = find_all_evasion_moves(&mut g);
    let mut legal = find_all_valid_moves(&mut g);
    ev.sort();
    legal.sort();
    assert_eq!(ev, legal);
    assert!(ev.contains(&((2, 2), (4, 4), None)));
    assert!(ev.contains(&((3, 6), (2, 4), None)));
    assert!(!ev.iter().any(|m| m.0 == (2, 2) && m.1 == (3, 3)));
}

#[test]
fn picker_order_capture_killer_quiet() {
    // white to move: Rxd5 wins a pawn for free, the killer is Kf1
    let mut pcs = kings();
    pcs.push(((4, 0), p(PieceType::Rook, Color::White)));
    pcs.push(((4, 3), p(PieceType::Pawn, Color::Black)));
    let b = board_with(&pcs);
    let mut g = GameState::from_board_and_side(b, Color::White);
    let moves = find_all_valid_moves(&mut g);
    let heuristics = SearchHeuristics::new(64);
    let mut picker = MovePicker::new(moves.clone(), None, [Some(((0, 4), (0, 5))), None], Color::White, 0, None);
    let first = picker.next(g.board(), g.en_passant_target(), &heuristics).unwrap();
    assert_eq!((first.0, first.1), ((4, 0), (4, 3)));
    let second = picker.next(g.board(), g.en_passant_target(), &heuristics).unwrap();
    assert_eq!((second.0, second.1), ((0, 4), (0, 5)));
    let mut rest = 2;
    while picker.next(g.board(), g.en_passant_target(), &heuristics).is_some() {
        rest += 1;
    }
    assert_eq!(rest, moves.len());
}

#[test]
fn hashfull_counts_sampled_slots() {
    let mut t = TranspositionTable::with_capacity_pow2(4);
    assert_eq!(t.hashfull_permille(), 0);
    let mut k: u64 = 0;
    while k < 16 {
        t.store(k, 3, Bound::Exact, 10, Some(1), Some(2));
        k += 1;
    }
    assert_eq!(t.hashfull_permille(), 1000);
}

#[test]
fn evasions_include_promotion_captures_and_skip_own_squares() {
    // black rook on a8 checks the white king on a1; the pawn on b7 can take it
    // and promote, and a white pawn stands on b2 next to the king
    let b = board_with(&[((0, 0), p(PieceType::King, Color::White)), ((7, 7), p(PieceType::King, Color::Black)),
        ((7, 0), p(PieceType::Rook, Color::Black)), ((6, 1), p(PieceType::Pawn, Color::White)),
        ((1, 1), p(PieceType::Pawn, Color::White))]);
    let mut g = GameState::from_board_and_side(b, Color::White);
    let mut ev = find_all_evasion_moves(&mut g);
    let mut legal = find_all_valid_moves(&mut g);
    assert!(ev.contains(&((6, 1), (7, 0), Some('q'))));
    assert!(ev.contains(&((6, 1), (7, 0), Some('n'))));
    assert!(!ev.iter().any(|m| m.1 == (1, 1)));
    ev.sort();
    legal.sort();
    assert_eq!(ev, legal);
}
